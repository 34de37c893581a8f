use sqlit::tokenizer::TokenType::{Identifier, Keyword, Literal, Separator};
use sqlit::tokenizer::Tokenizer;

#[test]
fn tokenize_basic_select() {
    let t = Tokenizer::new();

    let mut tokens = t.tokenize("SELECT a.c, b, c FROM table".to_string());

    let first = tokens.pop_front().unwrap();
    assert!(first.is("select"));
    assert!(first.is_type(Keyword));

    let second = tokens.pop_front().unwrap();
    assert!(second.is("a"));
    assert!(second.is_type(Identifier));

    let third = tokens.pop_front().unwrap();
    assert!(third.is("."));
    assert!(third.is_type(Separator));

    let fourth = tokens.pop_front().unwrap();
    assert!(fourth.is("c"));
    assert!(fourth.is_type(Identifier));
}

#[test]
fn distinguish() {
    let t = Tokenizer::new();

    let mut tokens = t.tokenize("12.34, a.b, 3.54".to_string());

    for type_ in [Literal, Separator, Identifier, Separator, Identifier, Separator, Literal] {
        assert!(tokens.pop_front().unwrap().is_type(type_));
    }
}

#[test]
fn as_versus_assists() {
    let t = Tokenizer::new();

    let mut tokens = t.tokenize("SELECT year(date) as    y FROM nba_games_stats".to_string());

    for type_ in [
        Keyword, Identifier, Separator, Identifier, Separator, Keyword, Identifier, Keyword,
        Identifier,
    ] {
        assert!(tokens.pop_front().unwrap().is_type(type_));
    }
}
