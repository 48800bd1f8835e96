//! A read cursor over the characters of a string slice.
use vstd::prelude::*;
use vstd::string::*;
use vstd::utf8::*;

verus! {

/// True where the byte offset `p` into the UTF-8 form of `text` is the start
/// of a character or the end of the text.
pub open spec fn is_boundary(text: Seq<char>, p: int) -> bool {
    0 <= p <= encode_utf8(text).len() && is_char_boundary(encode_utf8(text), p)
}

/// The characters that the bytes from offset `p` up to offset `q` encode.
pub open spec fn chars_between(text: Seq<char>, p: int, q: int) -> Seq<char> {
    decode_utf8(encode_utf8(text).subrange(p, q))
}

/// The number of bytes that `c` takes in UTF-8.
pub open spec fn char_width(c: char) -> int {
    encode_scalar(c as u32).len() as int
}

/// The length of the longest prefix of `s` whose characters all satisfy `pred`.
pub open spec fn run_len(s: Seq<char>, pred: spec_fn(char) -> bool) -> nat
    decreases s.len(),
{
    if s.len() > 0 && pred(s[0]) {
        1 + run_len(s.drop_first(), pred)
    } else {
        0
    }
}

/// A run is no longer than the text, holds only characters that satisfy the
/// predicate, and ends before one that does not.
pub proof fn lemma_run_len(s: Seq<char>, pred: spec_fn(char) -> bool)
    ensures
        run_len(s, pred) <= s.len(),
        forall|i: int| 0 <= i < run_len(s, pred) ==> pred(#[trigger] s[i]),
        run_len(s, pred) < s.len() ==> !pred(s[run_len(s, pred) as int]),
    decreases s.len(),
{
    if s.len() > 0 && pred(s[0]) {
        let tail = s.drop_first();
        lemma_run_len(tail, pred);
        assert forall|i: int| 0 <= i < run_len(s, pred) implies pred(#[trigger] s[i]) by {
            if i > 0 {
                assert(s[i] == tail[i - 1]);
            }
        }
        if run_len(s, pred) < s.len() {
            assert(s[run_len(s, pred) as int] == tail[run_len(tail, pred) as int]);
        }
    }
}

/// The only prefix length that holds nothing but characters that satisfy the
/// predicate and ends before one that does not is the run's length.
pub proof fn lemma_run_len_unique(s: Seq<char>, pred: spec_fn(char) -> bool, n: int)
    requires
        0 <= n <= s.len(),
        forall|i: int| 0 <= i < n ==> pred(#[trigger] s[i]),
        n < s.len() ==> !pred(s[n]),
    ensures
        n == run_len(s, pred),
    decreases s.len(),
{
    if n > 0 {
        assert(pred(s[0]));
        let tail = s.drop_first();
        assert forall|i: int| 0 <= i < n - 1 implies pred(#[trigger] tail[i]) by {
            assert(tail[i] == s[i + 1]);
        }
        if n - 1 < tail.len() {
            assert(tail[n - 1] == s[n]);
        }
        lemma_run_len_unique(tail, pred, n - 1);
    }
}

/// The characters before a boundary and those after it make up the text.
pub proof fn lemma_partition(text: Seq<char>, p: int)
    requires
        is_boundary(text, p),
    ensures
        chars_between(text, 0, p) + chars_between(text, p, encode_utf8(text).len() as int) == text,
{
    let bytes = encode_utf8(text);
    encode_utf8_valid_utf8(text);
    encode_utf8_decode_utf8(text);
    decode_utf8_split(bytes, p);
}

/// A boundary of the text that lies within a prefix ending at a boundary is a
/// boundary of that prefix.
proof fn lemma_boundary_in_prefix(bytes: Seq<u8>, p: int, q: int)
    requires
        valid_utf8(bytes),
        0 <= p <= q <= bytes.len(),
        is_char_boundary(bytes, p),
        is_char_boundary(bytes, q),
    ensures
        valid_utf8(bytes.subrange(0, q)),
        is_char_boundary(bytes.subrange(0, q), p),
{
    let head = bytes.subrange(0, q);
    valid_utf8_split(bytes, q);
    if p == q {
        is_char_boundary_start_end_of_seq(head);
    } else {
        is_char_boundary_iff_not_is_continuation_byte(bytes, p);
        assert(head[p] == bytes[p]);
        is_char_boundary_iff_not_is_continuation_byte(head, p);
    }
}

/// The characters before a boundary `q` are those before an earlier boundary
/// `p` followed by those between the two.
pub proof fn lemma_between(text: Seq<char>, p: int, q: int)
    requires
        is_boundary(text, p),
        is_boundary(text, q),
        p <= q,
    ensures
        chars_between(text, 0, q) == chars_between(text, 0, p) + chars_between(text, p, q),
{
    let bytes = encode_utf8(text);
    encode_utf8_valid_utf8(text);
    let head = bytes.subrange(0, q);
    lemma_boundary_in_prefix(bytes, p, q);
    decode_utf8_split(head, p);
    assert(head.subrange(0, p) =~= bytes.subrange(0, p));
    assert(head.subrange(p, head.len() as int) =~= bytes.subrange(p, q));
}

/// Stepping over the character that starts at a boundary leads to the next
/// boundary: the character moves from what follows to what came before.
pub proof fn lemma_step(text: Seq<char>, p: int)
    requires
        is_boundary(text, p),
        p < encode_utf8(text).len(),
    ensures
        chars_between(text, p, encode_utf8(text).len() as int).len() > 0,
        ({
            let end = encode_utf8(text).len() as int;
            let c = chars_between(text, p, end)[0];
            &&& 1 <= char_width(c)
            &&& is_boundary(text, p + char_width(c))
            &&& chars_between(text, p + char_width(c), end) == chars_between(text, p, end).drop_first()
            &&& chars_between(text, 0, p + char_width(c)) == chars_between(text, 0, p).push(c)
        }),
{
    let bytes = encode_utf8(text);
    let end = bytes.len() as int;
    encode_utf8_valid_utf8(text);
    valid_utf8_split(bytes, p);
    let rb = bytes.subrange(p, end);
    assert(rb.len() > 0);
    assert(valid_first_scalar(rb) && valid_utf8(pop_first_scalar(rb)));
    let c = decode_first_scalar(rb) as char;
    let tail = pop_first_scalar(rb);
    assert(decode_utf8(rb) == seq![c] + decode_utf8(tail));
    assert(chars_between(text, p, end)[0] == c);
    decode_utf8_first_scalar(rb);
    let w = length_of_first_scalar(rb);
    assert(1 <= w <= rb.len());
    assert(take_first_scalar(rb).len() == w);
    assert(char_width(c) == w);
    assert(tail =~= bytes.subrange(p + w, end));
    assert(decode_utf8(tail) =~= decode_utf8(rb).drop_first());
    if p + w == end {
        is_char_boundary_start_end_of_seq(bytes);
    } else {
        assert(is_char_boundary(tail, 0));
        assert(is_char_boundary(rb, w));
        is_char_boundary_iff_not_is_continuation_byte(rb, w);
        assert(rb[w] == bytes[p + w]);
        is_char_boundary_iff_not_is_continuation_byte(bytes, p + w);
    }
    lemma_partition(text, p);
    lemma_partition(text, p + w);
    let before = chars_between(text, 0, p);
    let after = chars_between(text, 0, p + w);
    let rest = chars_between(text, p + w, end);
    assert(before + (seq![c] + rest) == text);
    assert(after + rest == text);
    assert(after.len() == before.len() + 1);
    assert forall|i: int| 0 <= i < after.len() implies after[i] == before.push(c)[i] by {
        assert(after[i] == (after + rest)[i]);
        assert((before + (seq![c] + rest))[i] == before.push(c)[i]);
    }
    assert(after =~= before.push(c));
}

/// The number of bytes that a character takes in UTF-8, as `char::len_utf8`
/// reports it: the length of the character's encoding.
#[verifier::external_body]
fn width_of(c: char) -> (n: usize)
    ensures
        n == char_width(c),
{
    c.len_utf8()
}

/// The length of a string slice in bytes.
fn byte_len(s: &str) -> (n: usize)
    ensures
        n == encode_utf8(s@).len(),
{
    s.as_bytes().len()
}

/// Cursor for characters in a string slice.
#[derive(Clone, Copy, Debug)]
pub struct CharCursor<'a> {
    s: &'a str,
    pos: usize,
}

impl<'a> CharCursor<'a> {
    /// The whole text that the cursor reads.
    pub closed spec fn text(&self) -> Seq<char> {
        self.s@
    }

    /// The cursor's byte offset into the text.
    pub closed spec fn offset(&self) -> int {
        self.pos as int
    }

    /// The cursor stands on a character boundary of its text.
    #[verifier::type_invariant]
    pub open spec fn wf(&self) -> bool {
        is_boundary(self.text(), self.offset())
    }

    /// The characters that the cursor has passed.
    pub open spec fn consumed(&self) -> Seq<char> {
        chars_between(self.text(), 0, self.offset())
    }

    /// The characters that the cursor has yet to read.
    pub open spec fn rest(&self) -> Seq<char> {
        chars_between(self.text(), self.offset(), encode_utf8(self.text()).len() as int)
    }

    /// The next character, if any is left.
    pub open spec fn next_char(&self) -> Option<char> {
        if self.rest().len() > 0 {
            Some(self.rest()[0])
        } else {
            None
        }
    }

    /// The same text, with the cursor moved over `n` more characters.
    pub open spec fn advanced_by(&self, before: Self, n: int) -> bool {
        &&& self.wf()
        &&& self.text() == before.text()
        &&& 0 <= n <= before.rest().len()
        &&& self.consumed() == before.consumed() + before.rest().take(n)
        &&& self.rest() == before.rest().skip(n)
        &&& self.offset() >= before.offset() + n
        &&& n == 0 ==> *self == before
    }

    /// A cursor that has not moved has advanced over no character.
    pub proof fn lemma_advanced_none(&self)
        requires
            self.wf(),
        ensures
            self.advanced_by(*self, 0),
    {
        let r = self.rest();
        assert(r.take(0) =~= Seq::<char>::empty());
        assert(self.consumed() + r.take(0) =~= self.consumed());
        assert(r.skip(0) =~= r);
    }

    /// Two advances in a row are one advance over both counts.
    pub proof fn lemma_advanced_twice(&self, middle: Self, before: Self, m: int, n: int)
        requires
            middle.advanced_by(before, n),
            self.advanced_by(middle, m),
        ensures
            self.advanced_by(before, n + m),
    {
        let r = before.rest();
        assert(r.take(n) + r.skip(n).take(m) =~= r.take(n + m));
        assert(r.skip(n).skip(m) =~= r.skip(n + m));
        assert(before.consumed() + r.take(n) + r.skip(n).take(m) =~= before.consumed() + (r.take(n)
            + r.skip(n).take(m)));
    }

    /// The bytes between a cursor's offset and its offset after an advance
    /// encode the characters that the advance went over.
    pub proof fn lemma_span(&self, before: Self, n: int)
        requires
            before.wf(),
            self.advanced_by(before, n),
        ensures
            is_boundary(self.text(), before.offset()),
            is_boundary(self.text(), self.offset()),
            before.offset() <= self.offset(),
            chars_between(self.text(), before.offset(), self.offset()) == before.rest().take(n),
    {
        lemma_between(self.text(), before.offset(), self.offset());
        let span = chars_between(self.text(), before.offset(), self.offset());
        let taken = before.rest().take(n);
        assert(before.consumed() + span == before.consumed() + taken);
        assert((before.consumed() + span).len() == before.consumed().len() + span.len());
        assert((before.consumed() + taken).len() == before.consumed().len() + taken.len());
        assert(span.len() == taken.len());
        assert forall|i: int| 0 <= i < span.len() implies span[i] == taken[i] by {
            assert((before.consumed() + span)[before.consumed().len() + i] == span[i]);
            assert((before.consumed() + taken)[before.consumed().len() + i] == taken[i]);
        }
        assert(span =~= taken);
    }

    /// What the cursor has passed and what it has yet to read make up its text.
    pub proof fn lemma_consumed_rest(&self)
        requires
            self.wf(),
        ensures
            self.consumed() + self.rest() == self.text(),
    {
        lemma_partition(self.text(), self.offset());
    }

    /// Create a cursor for the given slice.
    /// The cursor starts at the start of the slice.
    pub fn new(s: &'a str) -> (cursor: Self)
        ensures
            cursor.wf(),
            cursor.text() == s@,
            cursor.offset() == 0,
            cursor.consumed() == Seq::<char>::empty(),
            cursor.rest() == s@,
    {
        proof {
            let bytes = encode_utf8(s@);
            encode_utf8_valid_utf8(s@);
            encode_utf8_decode_utf8(s@);
            assert(bytes.subrange(0, 0) =~= Seq::<u8>::empty());
            assert(valid_utf8(bytes.subrange(0, 0)));
            assert(decode_utf8(bytes.subrange(0, 0)) =~= Seq::<char>::empty());
            assert(bytes.subrange(0, bytes.len() as int) =~= bytes);
        }
        CharCursor { s, pos: 0 }
    }

    /// Get the cursor's position in the slice, in bytes.
    /// This will always point to a valid char boundary.
    pub fn position(&self) -> (p: usize)
        ensures
            p == self.offset(),
            self.wf(),
    {
        proof {
            use_type_invariant(self);
        }
        self.pos
    }

    /// The part of the contained string slice between two byte offsets, where
    /// both are character boundaries and the first is not behind the second.
    /// The offsets aren't bound by the cursor's position, only by the slice.
    pub fn get(&self, start: usize, end: usize) -> (part: Option<&'a str>)
        ensures
            part is Some <==> start <= end && is_boundary(self.text(), start as int) && is_boundary(
                self.text(),
                end as int,
            ),
            part matches Some(t) ==> t@ == chars_between(self.text(), start as int, end as int),
    {
        let s: &'a str = self.s;
        if start <= end && end <= byte_len(s) && s.is_char_boundary(start) && s.is_char_boundary(end) {
            proof {
                encode_utf8_valid_utf8(s@);
                lemma_boundary_in_prefix(s.spec_bytes(), start as int, end as int);
            }
            let (head, _) = s.split_at(end);
            let (_, part) = head.split_at(start);
            proof {
                assert(part.spec_bytes() =~= s.spec_bytes().subrange(start as int, end as int));
                encode_utf8_decode_utf8(part@);
            }
            Some(part)
        } else {
            None
        }
    }

    /// Get a string slice containing all the characters following the current position.
    pub fn remainder(&self) -> (rem: &'a str)
        ensures
            rem@ == self.rest(),
            self.wf(),
    {
        proof {
            use_type_invariant(self);
        }
        let s: &'a str = self.s;
        let (_, rem) = s.split_at(self.pos);
        proof {
            encode_utf8_decode_utf8(rem@);
        }
        rem
    }

    /// The next character, without advancing the cursor.
    pub fn peek(&self) -> (c: Option<char>)
        ensures
            c == self.next_char(),
            self.wf(),
    {
        broadcast use group_string_axioms;

        let rem = self.remainder();
        let mut chars = rem.chars();
        chars.next()
    }

    /// Check if the next character matches the expected one.
    /// This doesn't advance the cursor's position.
    pub fn peek_char(&self, expected: char) -> (found: bool)
        ensures
            found == (self.next_char() == Some(expected)),
            self.wf(),
    {
        match self.peek() {
            Some(c) => c == expected,
            None => false,
        }
    }

    /// Read the next character and advance the cursor, where the character
    /// passes the test `f`.
    pub fn read_if<F: FnOnce(char) -> bool>(&mut self, f: F) -> (read: Option<char>)
        requires
            forall|c: char| f.requires((c,)),
        ensures
            old(self).wf(),
            final(self).wf(),
            match read {
                Some(c) => {
                    &&& old(self).next_char() == Some(c)
                    &&& f.ensures((c,), true)
                    &&& final(self).advanced_by(*old(self), 1)
                    &&& final(self).offset() == old(self).offset() + char_width(c)
                },
                None => {
                    &&& *final(self) == *old(self)
                    &&& old(self).next_char() matches Some(c) ==> f.ensures((c,), false)
                },
            },
    {
        match self.peek() {
            Some(c) => {
                let len: usize = byte_len(self.s);
                if f(c) {
                    proof {
                        if self.offset() == len {
                            assert(encode_utf8(self.text()).subrange(len as int, len as int) =~= Seq::<u8>::empty());
                            assert(valid_utf8(Seq::<u8>::empty()));
                            assert(decode_utf8(Seq::<u8>::empty()) =~= Seq::<char>::empty());
                        }
                        lemma_step(self.text(), self.offset());
                        assert(self.rest().take(1) =~= seq![c]);
                        assert(self.rest().skip(1) =~= self.rest().drop_first());
                        assert(encode_utf8(self.text()).len() == self.s.spec_bytes().len());
                    }
                    let width: usize = width_of(c);
                    self.pos = self.pos + width;
                    proof {
                        let before = *old(self);
                        assert(before.consumed().push(c) =~= before.consumed() + before.rest().take(1));
                    }
                    Some(c)
                } else {
                    None
                }
            },
            None => None,
        }
    }

    /// Read the next character and advance the cursor.
    pub fn read(&mut self) -> (read: Option<char>)
        ensures
            old(self).wf(),
            final(self).wf(),
            read == old(self).next_char(),
            read is Some ==> final(self).advanced_by(*old(self), 1),
            read matches Some(c) ==> final(self).offset() == old(self).offset() + char_width(c),
            read is None ==> *final(self) == *old(self),
    {
        self.read_if(|c: char| -> (pass: bool) ensures pass { true })
    }

    /// Read the next character and advance the cursor only if it matches the expected one.
    /// Returns `None` if the character didn't match.
    pub fn read_char(&mut self, expected: char) -> (read: Option<char>)
        ensures
            old(self).wf(),
            final(self).wf(),
            read == if old(self).next_char() == Some(expected) {
                Some(expected)
            } else {
                None
            },
            read is Some ==> final(self).advanced_by(*old(self), 1),
            read is Some ==> final(self).offset() == old(self).offset() + char_width(expected),
            read is None ==> *final(self) == *old(self),
    {
        self.read_if(|c: char| -> (pass: bool) ensures pass == (c == expected) { c == expected })
    }

    /// Advance the cursor while the given function returns `true`.
    /// The cursor won't advance if the function returns `false`.
    pub fn read_while<F: Fn(char) -> bool>(&mut self, f: F)
        requires
            forall|c: char| f.requires((c,)),
        ensures
            old(self).wf(),
            final(self).advanced_by(*old(self), final(self).consumed().len() - old(self).consumed().len()),
            forall|i: int|
                0 <= i < final(self).consumed().len() - old(self).consumed().len() ==> f.ensures(
                    (#[trigger] old(self).rest()[i],),
                    true,
                ),
            final(self).next_char() matches Some(c) ==> f.ensures((c,), false),
    {
        let ghost start = *self;
        let ghost mut n: int = 0;
        proof {
            use_type_invariant(&*self);
            start.lemma_advanced_none();
        }
        loop
            invariant
                start == *old(self),
                forall|c: char| f.requires((c,)),
                self.advanced_by(start, n),
                0 <= n,
                n == self.consumed().len() - start.consumed().len(),
                forall|i: int| 0 <= i < n ==> f.ensures((#[trigger] start.rest()[i],), true),
            ensures
                self.next_char() matches Some(c) ==> f.ensures((c,), false),
            decreases self.rest().len(),
        {
            let ghost before = *self;
            let read = self.read_if(&f);
            match read {
                Some(c) => {
                    proof {
                        assert(before.rest()[0] == start.rest()[n]);
                        assert(start.rest().take(n + 1) =~= start.rest().take(n) + before.rest().take(1));
                        assert(start.rest().skip(n + 1) =~= before.rest().skip(1));
                        assert(self.consumed() =~= start.consumed() + start.rest().take(n + 1));
                        n = n + 1;
                    }
                },
                None => {
                    break ;
                },
            }
        }
    }
}

} // verus!
