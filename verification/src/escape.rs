//! Percent signs that stand alone, told apart from those that start an
//! expansion.
use crate::cursor::{lemma_run_len, lemma_run_len_unique, run_len, CharCursor};
use vstd::prelude::*;

verus! {

/// The percent sign.
pub const PERCENT: char = '%';

/// What a token says: a percent sign that stands alone, or a span of text.
pub ghost enum TokenModel {
    Percent,
    Str(Seq<char>),
}

/// A percent sign that starts no expansion, or a span of text without one.
#[derive(PartialEq, Debug)]
pub enum Token<'a> {
    Percent,
    Str(&'a str),
}

impl<'a> View for Token<'a> {
    type V = TokenModel;

    open spec fn view(&self) -> TokenModel {
        match self {
            Token::Percent => TokenModel::Percent,
            Token::Str(text) => TokenModel::Str(text@),
        }
    }
}

/// The test for every character but the percent sign.
pub open spec fn not_percent() -> spec_fn(char) -> bool {
    |c: char| c != PERCENT
}

/// True where `r` begins with `word`.
pub open spec fn starts_with(r: Seq<char>, word: Seq<char>) -> bool {
    word.len() <= r.len() && r.take(word.len() as int) == word
}

/// The length of the expansion opener that `r` begins with: `%val{`, `%opt{`,
/// `%sh{` or `%{`. Zero where it begins with none.
pub open spec fn expansion_len(r: Seq<char>) -> int {
    if starts_with(r, "%val{"@) || starts_with(r, "%opt{"@) {
        5
    } else if starts_with(r, "%sh{"@) {
        4
    } else if starts_with(r, "%{"@) {
        2
    } else {
        0
    }
}

/// The place of the first percent sign at or after `at` that opens no
/// expansion; the length of `s` where there is none.
pub open spec fn lone_percent(s: Seq<char>, at: int) -> int
    decreases s.len() - at,
{
    let p = at + run_len(s.skip(at), not_percent()) as int;
    let w = expansion_len(s.skip(p));
    if 0 <= at <= p < s.len() && 0 < w <= s.len() - p {
        lone_percent(s, p + w)
    } else {
        p
    }
}

/// The tokens of a text, in order. A percent sign that opens no expansion is
/// a token of its own; the text up to the next such sign is one token.
pub open spec fn spec_tokens(s: Seq<char>) -> Seq<TokenModel>
    decreases s.len(),
{
    let e = lone_percent(s, 0);
    if s.len() == 0 {
        Seq::empty()
    } else if e <= 0 {
        seq![TokenModel::Percent] + spec_tokens(s.skip(1))
    } else if e < s.len() {
        seq![TokenModel::Str(s.take(e))] + spec_tokens(s.skip(e))
    } else {
        seq![TokenModel::Str(s)]
    }
}

/// Tests for a character other than the percent sign.
pub fn other_than_percent(c: char) -> (pass: bool)
    ensures
        pass == (c != PERCENT),
{
    c != PERCENT
}

/// Moves the cursor over `word` where the text at the cursor begins with it.
pub fn skip_word(cursor: &mut CharCursor, word: &str) -> (found: bool)
    ensures
        old(cursor).wf(),
        final(cursor).wf(),
        found == starts_with(old(cursor).rest(), word@),
        found ==> final(cursor).advanced_by(*old(cursor), word@.len() as int),
        !found ==> *final(cursor) == *old(cursor),
{
    let ghost r = cursor.rest();
    let mut look: CharCursor = *cursor;
    let mut letters = CharCursor::new(word);
    proof {
        use_type_invariant(&*cursor);
        cursor.lemma_advanced_none();
        assert(r.take(0) =~= Seq::<char>::empty());
    }
    loop
        invariant
            *cursor == *old(cursor),
            cursor.wf(),
            r == cursor.rest(),
            letters.wf(),
            letters.text() == word@,
            look.advanced_by(*cursor, letters.consumed().len() as int),
            r.take(letters.consumed().len() as int) == letters.consumed(),
        decreases letters.rest().len(),
    {
        let ghost seen = letters.consumed();
        let ghost look_before = look;
        proof {
            letters.lemma_consumed_rest();
        }
        match letters.read() {
            None => {
                proof {
                    assert(seen + Seq::<char>::empty() =~= seen);
                }
                *cursor = look;
                return true;
            },
            Some(c) => {
                let ghost k = seen.len() as int;
                proof {
                    assert(word@[k] == c);
                    assert(letters.consumed() =~= seen.push(c));
                }
                if look.read_char(c).is_none() {
                    proof {
                        if starts_with(r, word@) {
                            assert(r.take(word@.len() as int)[k] == c);
                            assert(look_before.rest()[0] == r[k]);
                        }
                    }
                    return false;
                }
                proof {
                    assert(look_before.rest()[0] == r[k]);
                    look.lemma_advanced_twice(look_before, *cursor, 1, k);
                    assert(r.take(k + 1) =~= r.take(k).push(c));
                }
            },
        }
    }
}

/// Iterator that either returns a percent sign which is not prefixing `val{`,
/// `opt{`, `sh{` or `{`, or a string slice without such a percent sign.
pub struct EscapeIterator<'a> {
    remainder: &'a str,
}

impl<'a> EscapeIterator<'a> {
    /// The tokens that are still to come, in order.
    pub closed spec fn pending(&self) -> Seq<TokenModel> {
        spec_tokens(self.remainder@)
    }

    /// An iterator over the tokens of `string`.
    pub fn new(string: &'a str) -> (iter: Self)
        ensures
            iter.pending() == spec_tokens(string@),
    {
        EscapeIterator { remainder: string }
    }

    /// The next token, or `None` once the text is used up.
    pub fn next(&mut self) -> (token: Option<Token<'a>>)
        ensures
            match token {
                Some(t) => {
                    &&& old(self).pending().len() > 0
                    &&& t@ == old(self).pending()[0]
                    &&& final(self).pending() == old(self).pending().drop_first()
                },
                None => old(self).pending().len() == 0 && final(self).pending().len() == 0,
            },
    {
        if self.remainder.is_empty() {
            return None;
        }
        let whole: &'a str = self.remainder;
        let ghost s = whole@;
        let mut cursor = CharCursor::new(whole);
        let ghost first = cursor;
        let ghost mut k: int = 0;
        proof {
            cursor.lemma_advanced_none();
        }
        loop
            invariant
                first.wf(),
                first.rest() == s,
                first.consumed() == Seq::<char>::empty(),
                cursor.advanced_by(first, k),
                lone_percent(s, k) == lone_percent(s, 0),
            ensures
                cursor.advanced_by(first, lone_percent(s, 0)),
            decreases cursor.rest().len(),
        {
            let ghost here = cursor;
            cursor.read_while(other_than_percent);
            let ghost n = cursor.consumed().len() - here.consumed().len();
            let ghost middle = cursor;
            proof {
                assert(cursor.rest().len() > 0 ==> cursor.rest()[0] == here.rest()[n]);
                lemma_run_len_unique(here.rest(), not_percent(), n);
                cursor.lemma_advanced_twice(here, first, n, k);
                reveal_strlit("%val{");
                reveal_strlit("%opt{");
                reveal_strlit("%sh{");
                reveal_strlit("%{");
            }
            let mut opened: bool = skip_word(&mut cursor, "%val{");
            if !opened {
                opened = skip_word(&mut cursor, "%opt{");
            }
            if !opened {
                opened = skip_word(&mut cursor, "%sh{");
            }
            if !opened {
                opened = skip_word(&mut cursor, "%{");
            }
            if !opened {
                proof {
                    k = k + n;
                }
                break ;
            }
            proof {
                let w = expansion_len(middle.rest());
                cursor.lemma_advanced_twice(middle, first, w, k + n);
                k = k + n + w;
            }
        }
        let ghost e = lone_percent(s, 0);
        let at: usize = cursor.position();
        let ghost before = cursor;
        proof {
            cursor.lemma_span(first, e);
            assert(s.take(s.len() as int) =~= s);
        }
        match cursor.peek() {
            None => {
                self.remainder = cursor.remainder();
                proof {
                    assert(spec_tokens(self.remainder@) =~= Seq::<TokenModel>::empty());
                    assert(spec_tokens(s).drop_first() =~= Seq::<TokenModel>::empty());
                }
                Some(Token::Str(whole))
            },
            Some(_) => {
                if at == 0 {
                    let _ = cursor.read();
                    self.remainder = cursor.remainder();
                    proof {
                        assert(spec_tokens(s).drop_first() =~= spec_tokens(s.skip(1)));
                    }
                    Some(Token::Percent)
                } else {
                    self.remainder = cursor.remainder();
                    proof {
                        assert(spec_tokens(s).drop_first() =~= spec_tokens(s.skip(e)));
                    }
                    match cursor.get(0, at) {
                        Some(chunk) => Some(Token::Str(chunk)),
                        None => Some(Token::Str(whole)),
                    }
                }
            },
        }
    }

    /// All the tokens that are still to come, in order.
    pub fn collect(self) -> (tokens: Vec<Token<'a>>)
        ensures
            tokens@.len() == self.pending().len(),
            forall|i: int| 0 <= i < tokens@.len() ==> (#[trigger] tokens@[i])@ == self.pending()[i],
    {
        let mut iter = self;
        let mut tokens: Vec<Token<'a>> = Vec::new();
        loop
            invariant
                tokens@.len() + iter.pending().len() == self.pending().len(),
                forall|i: int| 0 <= i < tokens@.len() ==> (#[trigger] tokens@[i])@ == self.pending()[i],
                forall|i: int|
                    0 <= i < iter.pending().len() ==> #[trigger] iter.pending()[i] == self.pending()[tokens@.len()
                        + i],
            ensures
                iter.pending().len() == 0,
            decreases iter.pending().len(),
        {
            let ghost before = iter.pending();
            match iter.next() {
                Some(token) => {
                    tokens.push(token);
                    proof {
                        assert forall|i: int| 0 <= i < iter.pending().len() implies #[trigger] iter.pending()[i]
                            == self.pending()[tokens@.len() + i] by {
                            assert(iter.pending()[i] == before[i + 1]);
                        }
                    }
                },
                None => {
                    break ;
                },
            }
        }
        tokens
    }
}

/// The text of a token: a percent sign, or the token's span.
pub open spec fn token_text(token: TokenModel) -> Seq<char> {
    match token {
        TokenModel::Percent => seq![PERCENT],
        TokenModel::Str(text) => text,
    }
}

/// The texts of a list of tokens, joined in order.
pub open spec fn tokens_text(tokens: Seq<TokenModel>) -> Seq<char>
    decreases tokens.len(),
{
    if tokens.len() == 0 {
        Seq::empty()
    } else {
        token_text(tokens[0]) + tokens_text(tokens.drop_first())
    }
}

/// A percent sign that opens no expansion is found within the text, at or
/// after the place where the search began; a percent sign stands there.
pub proof fn lemma_lone_percent(s: Seq<char>, at: int)
    requires
        0 <= at <= s.len(),
    ensures
        at <= lone_percent(s, at) <= s.len(),
        lone_percent(s, at) < s.len() ==> s[lone_percent(s, at)] == PERCENT && expansion_len(
            s.skip(lone_percent(s, at)),
        ) == 0,
    decreases s.len() - at,
{
    let r = s.skip(at);
    lemma_run_len(r, not_percent());
    let p = at + run_len(r, not_percent()) as int;
    let w = expansion_len(s.skip(p));
    if p < s.len() {
        assert(r[p - at] == s[p]);
    }
    if 0 <= at <= p < s.len() && 0 < w <= s.len() - p {
        lemma_lone_percent(s, p + w);
    } else if p < s.len() && w > 0 {
        let tail = s.skip(p);
        assert(starts_with(tail, "%val{"@) || starts_with(tail, "%opt{"@) || starts_with(tail, "%sh{"@)
            || starts_with(tail, "%{"@));
        reveal_strlit("%val{");
        reveal_strlit("%opt{");
        reveal_strlit("%sh{");
        reveal_strlit("%{");
    }
}

/// The texts of the tokens of a text, joined in order, are the text.
pub proof fn lemma_tokens_keep_text(s: Seq<char>)
    ensures
        tokens_text(spec_tokens(s)) == s,
    decreases s.len(),
{
    let e = lone_percent(s, 0);
    lemma_lone_percent(s, 0);
    let tokens = spec_tokens(s);
    if s.len() == 0 {
        assert(tokens_text(tokens) =~= s);
    } else if e <= 0 {
        lemma_tokens_keep_text(s.skip(1));
        assert(tokens.drop_first() =~= spec_tokens(s.skip(1)));
        assert(seq![PERCENT] + s.skip(1) =~= s);
    } else if e < s.len() {
        lemma_tokens_keep_text(s.skip(e));
        assert(tokens.drop_first() =~= spec_tokens(s.skip(e)));
        assert(s.take(e) + s.skip(e) =~= s);
    } else {
        assert(tokens.drop_first() =~= Seq::<TokenModel>::empty());
        assert(tokens_text(tokens.drop_first()) =~= Seq::<char>::empty());
        assert(s + Seq::<char>::empty() =~= s);
    }
}

} // verus!
