use sil::lex::{lex, Token, TokenKind};

fn kinds_and_texts(tokens: &[Token]) -> Vec<(TokenKind, String)> {
    tokens
        .iter()
        .map(|t| (t.kind(), t.raw_text().to_string()))
        .collect()
}

fn expected(pairs: &[(TokenKind, &str)]) -> Vec<(TokenKind, String)> {
    pairs.iter().map(|(k, s)| (*k, s.to_string())).collect()
}

#[test]
fn can_lex_simple() {
    let input = "[title]\nFoobar\n\n[text]\ncolor = 13.37 19.84 42\n\nHello there :)";
    let tokens = lex(input);
    assert_eq!(
        kinds_and_texts(&tokens),
        expected(&[
            (TokenKind::OpenBracket, "["),
            (TokenKind::Text, "title"),
            (TokenKind::CloseBracket, "]"),
            (TokenKind::Text, "Foobar"),
            (TokenKind::OpenBracket, "["),
            (TokenKind::Text, "text"),
            (TokenKind::CloseBracket, "]"),
            (TokenKind::Text, "color "),
            (TokenKind::EqualSign, "="),
            (TokenKind::Number, "13.37"),
            (TokenKind::Number, "19.84"),
            (TokenKind::Number, "42"),
            (TokenKind::Text, "Hello there "),
            (TokenKind::Colon, ":"),
            (TokenKind::Text, ")"),
        ])
    );
}

#[test]
fn can_lex_quoted() {
    let tokens = lex("\"black\"");
    assert_eq!(kinds_and_texts(&tokens), expected(&[(TokenKind::Quoted, "\"black\"")]));
    assert_eq!(tokens[0].text(), "black");
}

#[test]
fn can_lex_incomplete_quoted() {
    let tokens = lex("\"black");
    assert_eq!(kinds_and_texts(&tokens), expected(&[(TokenKind::Quoted, "\"black")]));
    assert_eq!(tokens[0].text(), "black");
}

#[test]
fn can_lex_non_ascii() {
    let input = "[title]\nFööbär\n\n[text]\ncölår = 13.37 19.84 42\n\nHallå där :)";
    let tokens = lex(input);
    assert_eq!(
        kinds_and_texts(&tokens),
        expected(&[
            (TokenKind::OpenBracket, "["),
            (TokenKind::Text, "title"),
            (TokenKind::CloseBracket, "]"),
            (TokenKind::Text, "Fööbär"),
            (TokenKind::OpenBracket, "["),
            (TokenKind::Text, "text"),
            (TokenKind::CloseBracket, "]"),
            (TokenKind::Text, "cölår "),
            (TokenKind::EqualSign, "="),
            (TokenKind::Number, "13.37"),
            (TokenKind::Number, "19.84"),
            (TokenKind::Number, "42"),
            (TokenKind::Text, "Hallå där "),
            (TokenKind::Colon, ":"),
            (TokenKind::Text, ")"),
        ])
    );
}

#[test]
fn can_lex_without_new_line() {
    let input = "[title]Foobar[text]color = 13.37 19.84 42 Hello there :)";
    let tokens = lex(input);
    assert_eq!(
        kinds_and_texts(&tokens),
        expected(&[
            (TokenKind::OpenBracket, "["),
            (TokenKind::Text, "title"),
            (TokenKind::CloseBracket, "]"),
            (TokenKind::Text, "Foobar"),
            (TokenKind::OpenBracket, "["),
            (TokenKind::Text, "text"),
            (TokenKind::CloseBracket, "]"),
            (TokenKind::Text, "color "),
            (TokenKind::EqualSign, "="),
            (TokenKind::Number, "13.37"),
            (TokenKind::Number, "19.84"),
            (TokenKind::Number, "42"),
            (TokenKind::Text, "Hello there "),
            (TokenKind::Colon, ":"),
            (TokenKind::Text, ")"),
        ])
    );
}

#[test]
fn can_lex_with_new_lines() {
    let input = "[title]\n\nFoobar\n\n[text] color = 13.37 19.84 42\n\nHello there :)\n";
    let tokens = lex(input);
    assert_eq!(
        kinds_and_texts(&tokens),
        expected(&[
            (TokenKind::OpenBracket, "["),
            (TokenKind::Text, "title"),
            (TokenKind::CloseBracket, "]"),
            (TokenKind::Text, "Foobar"),
            (TokenKind::OpenBracket, "["),
            (TokenKind::Text, "text"),
            (TokenKind::CloseBracket, "]"),
            (TokenKind::Text, "color "),
            (TokenKind::EqualSign, "="),
            (TokenKind::Number, "13.37"),
            (TokenKind::Number, "19.84"),
            (TokenKind::Number, "42"),
            (TokenKind::Text, "Hello there "),
            (TokenKind::Colon, ":"),
            (TokenKind::Text, ")"),
        ])
    );
}

#[test]
fn ignores_leading_and_trailing_new_lines_in_bodies() {
    let input =
        "[title]\n\nThis text is the same node\n\nas this text.\n\n[text] color = 13.37 19.84 42\n\nHello there :)\n";
    let tokens = lex(input);
    assert_eq!(
        kinds_and_texts(&tokens),
        expected(&[
            (TokenKind::OpenBracket, "["),
            (TokenKind::Text, "title"),
            (TokenKind::CloseBracket, "]"),
            (TokenKind::Text, "This text is the same node\n\nas this text."),
            (TokenKind::OpenBracket, "["),
            (TokenKind::Text, "text"),
            (TokenKind::CloseBracket, "]"),
            (TokenKind::Text, "color "),
            (TokenKind::EqualSign, "="),
            (TokenKind::Number, "13.37"),
            (TokenKind::Number, "19.84"),
            (TokenKind::Number, "42"),
            (TokenKind::Text, "Hello there "),
            (TokenKind::Colon, ":"),
            (TokenKind::Text, ")"),
        ])
    );
}

// The trailing newline after a block header is dropped at the header's own
// token boundary, never taken out of the body text that follows.
#[test]
fn strips_newline_at_the_header_boundary_only() {
    let tokens = lex("[title]\nFoobar");
    assert_eq!(
        kinds_and_texts(&tokens),
        expected(&[
            (TokenKind::OpenBracket, "["),
            (TokenKind::Text, "title"),
            (TokenKind::CloseBracket, "]"),
            (TokenKind::Text, "Foobar"),
        ])
    );
}

// An unterminated quote spans to end of input and is still one token.
#[test]
fn unterminated_quote_spans_to_end_of_input() {
    let tokens = lex("\"incomplete");
    assert_eq!(tokens.len(), 1);
    assert_eq!(tokens[0].kind(), TokenKind::Quoted);
    assert_eq!(tokens[0].text(), "incomplete");
    assert_eq!(tokens[0].raw_text(), "\"incomplete");
}

#[test]
fn lexes_nothing_from_empty_input() {
    assert_eq!(lex("").len(), 0);
}

#[test]
fn lexes_lone_quote_and_empty_quotes() {
    let lone = lex("\"");
    assert_eq!(lone[0].kind(), TokenKind::Quoted);
    assert_eq!(lone[0].text(), "");
    let empty = lex("\"\"");
    assert_eq!(empty[0].kind(), TokenKind::Quoted);
    assert_eq!(empty[0].text(), "");
}

#[test]
fn records_token_positions_in_characters() {
    let tokens = lex("åå[x]");
    let starts: Vec<usize> = tokens.iter().map(|t| t.start()).collect();
    assert_eq!(starts, vec![0, 2, 3, 4]);
}

#[test]
fn accepts_several_dots_in_a_number() {
    let tokens = lex("1.2.3");
    assert_eq!(kinds_and_texts(&tokens), expected(&[(TokenKind::Number, "1.2.3")]));
}

#[test]
fn cleans_trailing_spaces_from_attribute_keys() {
    assert_eq!(sil::lex::clean_up_for_attribute_key("color  "), "color");
    assert_eq!(sil::lex::clean_up_for_attribute_key("color"), "color");
    assert_eq!(sil::lex::clean_up_for_attribute_key("   "), "");
}
