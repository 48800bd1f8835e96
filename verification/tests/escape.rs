use yew_ansi::escape::{EscapeIterator, Token};

#[test]
fn test_empty() {
    let tokens: Vec<_> = EscapeIterator::new("").collect();
    assert_eq!(tokens, &[]);
}

#[test]
fn test_percent() {
    let tokens: Vec<_> = EscapeIterator::new("%").collect();
    assert_eq!(tokens, vec![Token::Percent]);
}

#[test]
fn test_opt() {
    let tokens: Vec<_> = EscapeIterator::new("%opt{session}").collect();
    assert_eq!(tokens, vec![Token::Str("%opt{session}")]);
}

#[test]
fn test_shell() {
    let tokens: Vec<_> = EscapeIterator::new("%sh{basename \"$kak_file\"}").collect();
    assert_eq!(tokens, vec![Token::Str("%sh{basename \"$kak_file\"}")]);
}

#[test]
fn test_expansion() {
    let tokens: Vec<_> = EscapeIterator::new("%{echo session}").collect();
    assert_eq!(tokens, vec![Token::Str("%{echo session}")]);
}

#[test]
fn test_mixed() {
    let tokens: Vec<_> = EscapeIterator::new("98% %val{session}").collect();
    assert_eq!(
        tokens,
        vec![
            Token::Str("98"),
            Token::Percent,
            Token::Str(" %val{session}")
        ]
    );
}

#[test]
fn percent_signs_in_a_row() {
    let tokens: Vec<_> = EscapeIterator::new("%%a%").collect();
    assert_eq!(
        tokens,
        vec![
            Token::Percent,
            Token::Percent,
            Token::Str("a"),
            Token::Percent
        ]
    );
}

#[test]
fn expansion_openers_do_not_split_the_text() {
    let tokens: Vec<_> = EscapeIterator::new("a%val{x}b%opt{y}c%sh{z}d%{w}e%v").collect();
    assert_eq!(
        tokens,
        vec![
            Token::Str("a%val{x}b%opt{y}c%sh{z}d%{w}e"),
            Token::Percent,
            Token::Str("v"),
        ]
    );
}

#[test]
fn opener_cut_short_is_a_lone_percent() {
    let tokens: Vec<_> = EscapeIterator::new("%val").collect();
    assert_eq!(tokens, vec![Token::Percent, Token::Str("val")]);
    let tokens: Vec<_> = EscapeIterator::new("\u{e9}%sh").collect();
    assert_eq!(
        tokens,
        vec![Token::Str("\u{e9}"), Token::Percent, Token::Str("sh")]
    );
}

#[test]
fn next_returns_none_for_good() {
    let mut iter = EscapeIterator::new("x");
    assert_eq!(iter.next(), Some(Token::Str("x")));
    assert_eq!(iter.next(), None);
    assert_eq!(iter.next(), None);
}
