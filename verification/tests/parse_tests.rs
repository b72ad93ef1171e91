use sil::lex::{lex, Span, Token};
use sil::parse::{parse, AstNode, Attribute, Node, AST};

fn text_token(text: &str, start: usize) -> Token {
    Token::Text(Span { text: text.to_string(), start })
}

fn quoted_token(raw: &str, start: usize) -> Token {
    Token::Quoted(Span { text: raw.to_string(), start })
}

fn number_token(text: &str, start: usize) -> Token {
    Token::Number(Span { text: text.to_string(), start })
}

fn node(kind: &str, attributes: Vec<Attribute>, body: &str) -> Node {
    Node { kind: kind.to_string(), attributes, body: body.to_string() }
}

fn attribute(name: &str, value: &str) -> Attribute {
    Attribute { name: name.to_string(), value: value.to_string() }
}

#[test]
fn can_parse_block() {
    let source = "[title]";
    let tokens = vec![
        Token::open_bracket(0),
        text_token("title", 1),
        Token::close_bracket(6),
    ];

    let mut expected_ast = AST::new();
    let node_slot = expected_ast.reserve_slot();
    let handle = expected_ast.push_node(node("title", vec![], ""));
    expected_ast.fill_slot(node_slot, handle);

    let ast = parse(source, &tokens);
    assert_eq!(ast, expected_ast);
}

#[test]
fn can_parse_block_with_single_attribute() {
    let source = "[title]foo=\"123\"";
    let tokens = vec![
        Token::open_bracket(0),
        text_token("title", 1),
        Token::close_bracket(6),
        //
        text_token("foo", 7),
        Token::equal_sign(10),
        quoted_token("\"123\"", 11),
    ];

    let mut expected_ast = AST::new();
    let node_slot = expected_ast.reserve_slot();
    let handle = expected_ast.push_node(node("title", vec![attribute("foo", "123")], ""));
    expected_ast.fill_slot(node_slot, handle);

    let ast = parse(source, &tokens);
    assert_eq!(ast, expected_ast);
}

#[test]
fn can_parse_block_with_two_attributes() {
    let source = "[title]foo=\"123\"bar=\"42\"";
    let tokens = vec![
        Token::open_bracket(0),
        text_token("title", 1),
        Token::close_bracket(6),
        //
        text_token("foo", 7),
        Token::equal_sign(10),
        quoted_token("\"123\"", 11),
        //
        text_token("bar", 16),
        Token::equal_sign(19),
        quoted_token("\"42\"", 20),
    ];

    let mut expected_ast = AST::new();
    let node_slot = expected_ast.reserve_slot();
    let handle = expected_ast.push_node(
        node("title", vec![attribute("foo", "123"), attribute("bar", "42")], ""),
    );
    expected_ast.fill_slot(node_slot, handle);

    let ast = parse(source, &tokens);
    assert_eq!(ast, expected_ast);
}

#[test]
fn can_parse_block_with_body() {
    let source = "[title]foo=\"123\"bar=\"42\"some text body";
    let tokens = vec![
        Token::open_bracket(0),
        text_token("title", 1),
        Token::close_bracket(6),
        //
        text_token("foo", 7),
        Token::equal_sign(10),
        quoted_token("\"123\"", 11),
        //
        text_token("bar", 16),
        Token::equal_sign(19),
        quoted_token("\"42\"", 20),
        //
        text_token("some text body", 24),
    ];

    let mut expected_ast = AST::new();
    let node_slot = expected_ast.reserve_slot();
    let handle = expected_ast.push_node(
        node(
            "title",
            vec![attribute("foo", "123"), attribute("bar", "42")],
            "some text body",
        ),
    );
    expected_ast.fill_slot(node_slot, handle);

    let ast = parse(source, &tokens);
    assert_eq!(ast, expected_ast);
}

#[test]
fn can_parse_block_with_attributes_and_body() {
    let source = "[title]foo";
    let tokens = vec![
        Token::open_bracket(0),
        text_token("title", 1),
        Token::close_bracket(6),
        //
        text_token("foo", 7),
    ];

    let mut expected_ast = AST::new();
    let node_slot = expected_ast.reserve_slot();
    let handle = expected_ast.push_node(node("title", vec![], "foo"));
    expected_ast.fill_slot(node_slot, handle);

    let ast = parse(source, &tokens);
    assert_eq!(ast, expected_ast);
}

#[test]
fn can_parse_multiple_simple_blocks() {
    let source = "[title][color]";
    let tokens = vec![
        Token::open_bracket(0),
        text_token("title", 1),
        Token::close_bracket(6),
        //
        Token::open_bracket(7),
        text_token("color", 8),
        Token::close_bracket(13),
    ];

    let mut expected_ast = AST::new();

    let node_slot = expected_ast.reserve_slot();
    let handle = expected_ast.push_node(node("title", vec![], ""));
    expected_ast.fill_slot(node_slot, handle);

    let node_slot = expected_ast.reserve_slot();
    let handle = expected_ast.push_node(node("color", vec![], ""));
    expected_ast.fill_slot(node_slot, handle);

    let ast = parse(source, &tokens);
    assert_eq!(ast, expected_ast);
}

#[test]
fn can_parse_multiple_blocks_with_bodies_and_attributes() {
    let source = "[title]weight=\"bold\"Foobar[color]name=\"black\"[lines]some text content";
    let tokens = vec![
        Token::open_bracket(0),
        text_token("title", 1),
        Token::close_bracket(6),
        //
        text_token("weight", 7),
        Token::equal_sign(13),
        quoted_token("\"bold\"", 14),
        //
        text_token("Foobar", 20),
        //
        Token::open_bracket(26),
        text_token("color", 27),
        Token::close_bracket(32),
        //
        text_token("name", 33),
        Token::equal_sign(37),
        quoted_token("\"black\"", 38),
        //
        Token::open_bracket(45),
        text_token("lines", 46),
        Token::close_bracket(51),
        //
        text_token("some text content", 52),
    ];

    let mut expected_ast = AST::new();

    let node_slot = expected_ast.reserve_slot();
    let handle = expected_ast.push_node(
        node("title", vec![attribute("weight", "bold")], "Foobar"),
    );
    expected_ast.fill_slot(node_slot, handle);

    let node_slot = expected_ast.reserve_slot();
    let handle = expected_ast.push_node(node("color", vec![attribute("name", "black")], ""));
    expected_ast.fill_slot(node_slot, handle);

    let node_slot = expected_ast.reserve_slot();
    let handle = expected_ast.push_node(node("lines", vec![], "some text content"));
    expected_ast.fill_slot(node_slot, handle);

    let ast = parse(source, &tokens);
    assert_eq!(ast, expected_ast);
}

// A stray token before a block becomes a leading garbage entry; the block
// follows it, in source order.
#[test]
fn stray_text_before_a_block_keeps_its_place() {
    let source = "hello [title] world";
    let tokens = lex(source);
    let ast = parse(source, &tokens);
    let slots = ast.view();
    assert_eq!(slots.len(), 2);
    match slots[0] {
        AstNode::Garbage(id) => {
            let garbage = ast.get_garbage(id);
            assert_eq!(garbage.text(), "hello ");
            assert_eq!(garbage.message(), "unexpected text");
        }
        _ => panic!("expected a garbage entry first"),
    }
    match slots[1] {
        AstNode::Node(id) => {
            let block = ast.get_node(id);
            assert_eq!(block.kind, "title");
            assert_eq!(block.text(), "world");
        }
        _ => panic!("expected the title block second"),
    }
}

#[test]
fn each_stray_kind_gets_its_own_message() {
    let cases = [
        ("5", "unexpected number"),
        ("x", "unexpected text"),
        ("\"q\"", "unexpected quoted"),
        ("]", "unexpected close bracket"),
        (":", "unexpected colon"),
        ("=", "unexpected equal sign"),
    ];
    for (source, message) in cases {
        let tokens = lex(source);
        let ast = parse(source, &tokens);
        let slots = ast.view();
        assert_eq!(slots.len(), 1, "one entry for {:?}", source);
        match slots[0] {
            AstNode::Garbage(id) => assert_eq!(ast.get_garbage(id).message(), message),
            _ => panic!("expected a garbage entry for {:?}", source),
        }
    }
}

// Fewer than three tokens after an open bracket collapse into one garbage
// entry covering everything that remains.
#[test]
fn too_few_tokens_become_one_garbage_entry() {
    let source = "[title";
    let tokens = lex(source);
    let ast = parse(source, &tokens);
    let slots = ast.view();
    assert_eq!(slots.len(), 1);
    match slots[0] {
        AstNode::Garbage(id) => {
            let garbage = ast.get_garbage(id);
            assert_eq!(garbage.message(), "too few tokens");
            assert_eq!(garbage.text(), "[title");
        }
        _ => panic!("expected a garbage entry"),
    }
}

// A malformed header sacrifices the whole remaining token window.
#[test]
fn malformed_header_collapses_the_window() {
    let source = "[[abc]";
    let tokens = lex(source);
    let ast = parse(source, &tokens);
    let slots = ast.view();
    assert_eq!(slots.len(), 1);
    match slots[0] {
        AstNode::Garbage(id) => {
            let garbage = ast.get_garbage(id);
            assert_eq!(garbage.message(), "unexpected tokens");
            assert_eq!(garbage.text(), "[[abc]");
        }
        _ => panic!("expected a garbage entry"),
    }
}

// A dangling `name =` with no valid value becomes a one-token garbage
// entry after the block, and parsing resumes at the equal sign, which the
// body absorbs.
#[test]
fn dangling_attribute_becomes_one_token_garbage() {
    let source = "[title]name=:";
    let tokens = lex(source);
    let ast = parse(source, &tokens);
    let slots = ast.view();
    assert_eq!(slots.len(), 2);
    match slots[0] {
        AstNode::Node(id) => {
            let block = ast.get_node(id);
            assert_eq!(block.kind, "title");
            assert_eq!(block.attributes.len(), 0);
            assert_eq!(block.text(), "=:");
        }
        _ => panic!("expected the block first"),
    }
    match slots[1] {
        AstNode::Garbage(id) => {
            let garbage = ast.get_garbage(id);
            assert_eq!(garbage.message(), "not an attribute");
            assert_eq!(garbage.text(), "name");
        }
        _ => panic!("expected the dangling-attribute diagnostic second"),
    }
}

// A number may stand as an attribute value just as a quoted text may.
#[test]
fn numbers_are_attribute_values_too() {
    let source = "[title]foo=123";
    let tokens = vec![
        Token::open_bracket(0),
        text_token("title", 1),
        Token::close_bracket(6),
        text_token("foo", 7),
        Token::equal_sign(10),
        number_token("123", 11),
    ];
    let ast = parse(source, &tokens);
    let slots = ast.view();
    match slots[0] {
        AstNode::Node(id) => {
            let block = ast.get_node(id);
            assert_eq!(block.attributes.len(), 1);
            assert_eq!(block.attributes[0].name, "foo");
            assert_eq!(block.attributes[0].value_text(), "123");
        }
        _ => panic!("expected a block"),
    }
}

// The leading `color = 13.37` pair parses as an attribute (its key keeps
// the blank the lexer recorded); the remaining numbers form the body,
// spliced out of one contiguous source range with the spacing between
// them exactly as it appeared.
#[test]
fn body_keeps_inter_token_spacing() {
    let source = "[title]\ncolor = 13.37 19.84 42";
    let tokens = lex(source);
    let ast = parse(source, &tokens);
    let slots = ast.view();
    assert_eq!(slots.len(), 1);
    match slots[0] {
        AstNode::Node(id) => {
            let block = ast.get_node(id);
            assert_eq!(block.attributes.len(), 1);
            assert_eq!(block.attributes[0].name, "color ");
            assert_eq!(block.attributes[0].value_text(), "13.37");
            assert_eq!(block.text(), "19.84 42");
        }
        _ => panic!("expected a block"),
    }
}

#[test]
fn parses_nothing_from_no_tokens() {
    let ast = parse("", &Vec::new());
    assert_eq!(ast.view().len(), 0);
}
