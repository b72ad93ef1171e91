use sil::lex::lex;
use sil::parse::{parse, Attribute, Node, AST};
use sil::slide::{
    parse_font_size, Align, FontWeight, Layer, Layers, TextLayer, TitleLayer,
};

fn single_block_ast(kind: &str, attributes: Vec<Attribute>, body: &str) -> AST {
    let mut ast = AST::new();
    let node_slot = ast.reserve_slot();
    let handle = ast.push_node(Node {
        kind: kind.to_string(),
        attributes,
        body: body.to_string(),
    });
    ast.fill_slot(node_slot, handle);
    ast
}

fn attribute(name: &str, value: &str) -> Attribute {
    Attribute { name: name.to_string(), value: value.to_string() }
}

fn pipeline(source: &str) -> Layers {
    let tokens = lex(source);
    let ast = parse(source, &tokens);
    Layers::from(&ast)
}

#[test]
fn can_convert_simple_node() {
    let ast = single_block_ast("title", vec![], "Foobar");
    let layers = Layers::from(&ast);
    assert_eq!(
        layers.view()[0],
        Layer::Title(TitleLayer {
            text: "Foobar".to_string(),
            font_size: 24,
            font_weight: FontWeight::Bold,
            color: 0x00000000,
        })
    );
}

#[test]
fn can_parse_node_with_font_size_attribute() {
    let ast = single_block_ast("title", vec![attribute("font_size", "11")], "Foobar");
    let layers = Layers::from(&ast);
    assert_eq!(
        layers.view()[0],
        Layer::Title(TitleLayer {
            text: "Foobar".to_string(),
            font_size: 11,
            font_weight: FontWeight::Bold,
            color: 0x00000000,
        })
    );
}

// The whole pipeline on a one-title document: lexing, parsing and
// resolution give exactly one title layer with the default styling.
#[test]
fn pipeline_resolves_a_simple_title() {
    let layers = pipeline("[title]\nFoobar");
    let view = layers.view();
    assert_eq!(view.len(), 1);
    assert_eq!(
        view[0],
        Layer::Title(TitleLayer {
            text: "Foobar".to_string(),
            font_size: 24,
            font_weight: FontWeight::Bold,
            color: 0x00000000,
        })
    );
}

// A font_size attribute overrides the default, and the blank the lexer
// leaves on the attribute key does not get in the way.
#[test]
fn pipeline_overrides_the_title_font_size() {
    let layers = pipeline("[title]\nfont_size = 11\nFoobar");
    let view = layers.view();
    assert_eq!(view.len(), 1);
    match &view[0] {
        Layer::Title(layer) => {
            assert_eq!(layer.text, "Foobar");
            assert_eq!(layer.font_size, 11);
        }
        other => panic!("expected a title layer, got {:?}", other),
    }
}

#[test]
fn text_blocks_get_text_layers() {
    let layers = pipeline("[text]\nHello");
    assert_eq!(
        layers.view()[0],
        Layer::Text(TextLayer {
            text: "Hello".to_string(),
            font_size: 16,
            font_weight: FontWeight::Medium,
        })
    );
}

// An unrecognized block kind passes through unchanged as renderable
// content rather than an error.
#[test]
fn unrecognized_kinds_pass_through() {
    let layers = pipeline("[wat]\nbody");
    match &layers.view()[0] {
        Layer::GarbageNode(node) => {
            assert_eq!(node.kind, "wat");
            assert_eq!(node.text(), "body");
        }
        other => panic!("expected a pass-through block, got {:?}", other),
    }
}

// A stray token outside any block produces a leading garbage layer, in
// source order, before the title layer.
#[test]
fn stray_tokens_become_leading_garbage_layers() {
    let layers = pipeline("hello [title] world");
    let view = layers.view();
    assert_eq!(view.len(), 2);
    match &view[0] {
        Layer::Garbage(garbage) => {
            assert_eq!(garbage.text(), "hello ");
            assert_eq!(garbage.message(), "unexpected text");
        }
        other => panic!("expected a garbage layer first, got {:?}", other),
    }
    match &view[1] {
        Layer::Title(layer) => assert_eq!(layer.text, "world"),
        other => panic!("expected a title layer second, got {:?}", other),
    }
}

// The resolver emits one layer per parsed entry, in the same order.
#[test]
fn one_layer_per_entry_in_order() {
    let source = ": [title]\nFoobar\n[wat]\nx\n[text]\ny";
    let tokens = lex(source);
    let ast = parse(source, &tokens);
    let layers = Layers::from(&ast);
    assert_eq!(layers.view().len(), ast.view().len());
}

// Re-running the full pipeline on unchanged text yields element-wise
// equal layers.
#[test]
fn pipeline_is_idempotent() {
    let source = "junk [title]\nfont_size = 11\nFoobar\n[text]\nbody :)";
    let first = pipeline(source);
    let second = pipeline(source);
    assert_eq!(first, second);
}

// A font_size value that is not a whole number falls back to the default
// size, by this library's documented choice.
#[test]
fn fractional_font_size_falls_back_to_default() {
    let layers = pipeline("[title]\nfont_size = 13.37\nFoobar");
    match &layers.view()[0] {
        Layer::Title(layer) => assert_eq!(layer.font_size, 24),
        other => panic!("expected a title layer, got {:?}", other),
    }
}

#[test]
fn non_numeric_font_size_falls_back_to_default() {
    let layers = pipeline("[text]\nfont_size = \"big\"\nFoobar");
    match &layers.view()[0] {
        Layer::Text(layer) => assert_eq!(layer.font_size, 16),
        other => panic!("expected a text layer, got {:?}", other),
    }
}

// A quoted whole number works as a font size too.
#[test]
fn quoted_font_size_overrides_the_default() {
    let layers = pipeline("[text]\nfont_size = \"12\"\nFoobar");
    match &layers.view()[0] {
        Layer::Text(layer) => assert_eq!(layer.font_size, 12),
        other => panic!("expected a text layer, got {:?}", other),
    }
}

// When several font_size attributes stand on one block, the last one
// decides.
#[test]
fn the_last_font_size_attribute_decides() {
    let ast = single_block_ast(
        "title",
        vec![attribute("font_size", "11"), attribute("font_size", "12")],
        "x",
    );
    let layers = Layers::from(&ast);
    match &layers.view()[0] {
        Layer::Title(layer) => assert_eq!(layer.font_size, 12),
        other => panic!("expected a title layer, got {:?}", other),
    }
}

#[test]
fn unrelated_attributes_are_ignored() {
    let ast = single_block_ast("title", vec![attribute("weight", "bold")], "x");
    let layers = Layers::from(&ast);
    match &layers.view()[0] {
        Layer::Title(layer) => assert_eq!(layer.font_size, 24),
        other => panic!("expected a title layer, got {:?}", other),
    }
}

#[test]
fn font_sizes_parse_as_whole_numbers_only() {
    assert_eq!(parse_font_size("0"), Some(0));
    assert_eq!(parse_font_size("007"), Some(7));
    assert_eq!(parse_font_size("4294967295"), Some(4294967295));
    assert_eq!(parse_font_size("4294967296"), None);
    assert_eq!(parse_font_size("99999999999999999999"), None);
    assert_eq!(parse_font_size("13.37"), None);
    assert_eq!(parse_font_size(""), None);
    assert_eq!(parse_font_size("1a"), None);
}

#[test]
fn layer_defaults_match_their_kinds() {
    let text = TextLayer::default();
    assert_eq!(text.font_size, 16);
    assert_eq!(text.font_weight, FontWeight::Medium);
    let title = TitleLayer::default();
    assert_eq!(title.font_size, 24);
    assert_eq!(title.font_weight, FontWeight::Bold);
    assert_eq!(title.color, 0x00000000);
}

#[test]
fn alignment_words_name_alignments() {
    assert_eq!(Align::from("left"), Some(Align::Left));
    assert_eq!(Align::from("center"), Some(Align::Center));
    assert_eq!(Align::from("right"), Some(Align::Right));
    assert_eq!(Align::from("middle"), None);
}

#[test]
fn resolves_an_empty_document_to_no_layers() {
    let layers = pipeline("");
    assert_eq!(layers.view().len(), 0);
    assert_eq!(layers, Layers::default());
}
