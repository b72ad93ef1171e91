//! Layer resolver for the `sil` pipeline.
//!
//! `Layers::from` maps each entry of a parsed document, by its kind tag,
//! into a typed layer: a block of kind `title` becomes a title layer, one
//! of kind `text` a text layer, a block of any other kind passes through
//! unchanged as a renderable placeholder, and a diagnostic entry becomes a
//! garbage layer rendered with error styling. One layer is produced per
//! entry, in the same order.
//!
//! A `font_size` attribute overrides the default size of a title or text
//! layer when its value is a whole number; by this library's explicit
//! choice, a value that is not a whole number (or does not fit the size
//! type) silently falls back to the default instead of becoming a
//! diagnostic.

use vstd::prelude::*;

use crate::lex::clean_up_for_attribute_key;
use crate::lex::is_digit_char;
use crate::lex::spec_trim_trailing_spaces;
use crate::lex::str_eq;
use crate::parse::AST;
use crate::parse::AstNode;
use crate::parse::Garbage;
use crate::parse::Node;
use crate::parse::SpecAttribute;
use crate::parse::SpecEntry;
use crate::parse::SpecGarbage;
use crate::parse::SpecNode;

verus! {

/// Weight of a rendered piece of text.
#[derive(Clone, Copy, Debug, PartialEq, Eq, Structural)]
pub enum FontWeight {
    Light,
    Medium,
    Bold,
}

/// Style family of a rendered piece of text.
#[derive(Clone, Copy, Debug, PartialEq, Eq, Structural)]
pub enum FontStyle {
    Monospace,
    Normal,
}

/// Horizontal alignment of a rendered piece of text.
#[derive(Clone, Copy, Debug, PartialEq, Eq, Structural)]
pub enum Align {
    Left,
    Center,
    Right,
}

/// The alignment a configuration word names, if it names one.
pub open spec fn spec_align_of(s: Seq<char>) -> Option<Align> {
    if s == "left"@ {
        Some(Align::Left)
    } else if s == "center"@ {
        Some(Align::Center)
    } else if s == "right"@ {
        Some(Align::Right)
    } else {
        None
    }
}

impl Align {
    /// The alignment the given word names: `left`, `center` or `right`.
    pub fn from(s: &str) -> (r: Option<Align>)
        ensures
            r == spec_align_of(s@),
    {
        if str_eq(s, "left") {
            Some(Align::Left)
        } else if str_eq(s, "center") {
            Some(Align::Center)
        } else if str_eq(s, "right") {
            Some(Align::Right)
        } else {
            None
        }
    }
}

// ----------------------------------------------------------------------------
// Whole-number attribute values
// ----------------------------------------------------------------------------

/// A non-empty string of decimal digits.
pub open spec fn is_digit_seq(s: Seq<char>) -> bool {
    s.len() > 0 && forall|i: int| 0 <= i < s.len() ==> is_digit_char(#[trigger] s[i])
}

/// The number a string of decimal digits denotes.
pub open spec fn digits_val(s: Seq<char>) -> int
    decreases s.len(),
{
    if s.len() == 0 {
        0
    } else {
        10 * digits_val(s.drop_last()) + (s.last() as u32 - '0' as u32)
    }
}

/// The font size an attribute value denotes: defined exactly for a
/// non-empty string of decimal digits whose value fits the size type.
pub open spec fn spec_parse_font_size(s: Seq<char>) -> Option<u32> {
    if is_digit_seq(s) && digits_val(s) <= u32::MAX {
        Some(digits_val(s) as u32)
    } else {
        None
    }
}

proof fn lemma_digits_val_bounds(s: Seq<char>, k: int)
    requires
        forall|i: int| 0 <= i < s.len() ==> is_digit_char(#[trigger] s[i]),
        0 <= k <= s.len(),
    ensures
        0 <= digits_val(s.subrange(0, k)) <= digits_val(s),
    decreases s.len() - k,
{
    if k == s.len() {
        assert(s.subrange(0, k) =~= s);
        lemma_digits_val_nonneg(s);
    } else {
        lemma_digits_val_bounds(s, k + 1);
        let t = s.subrange(0, k + 1);
        assert(t.drop_last() =~= s.subrange(0, k));
        lemma_digits_val_nonneg(s.subrange(0, k));
        assert(digits_val(t) == 10 * digits_val(s.subrange(0, k)) + (t.last() as u32 - '0'
            as u32));
        assert(is_digit_char(s[k]));
    }
}

proof fn lemma_digits_val_nonneg(s: Seq<char>)
    requires
        forall|i: int| 0 <= i < s.len() ==> is_digit_char(#[trigger] s[i]),
    ensures
        0 <= digits_val(s),
    decreases s.len(),
{
    if s.len() > 0 {
        assert(s.drop_last() =~= s.subrange(0, s.len() - 1));
        lemma_digits_val_nonneg(s.drop_last());
        assert(is_digit_char(s[s.len() - 1]));
    }
}

/// Parses an attribute value as a whole-number font size. Returns the
/// number exactly when the value is a non-empty string of decimal digits
/// whose value fits; anything else, a fractional value included, yields
/// nothing.
pub fn parse_font_size(s: &str) -> (r: Option<u32>)
    ensures
        r == spec_parse_font_size(s@),
{
    let n: usize = s.unicode_len();
    if n == 0 {
        return None;
    }
    let mut val: u32 = 0;
    let mut i: usize = 0;
    while i < n
        invariant
            n == s@.len(),
            0 < n,
            i <= n,
            forall|j: int| 0 <= j < i ==> is_digit_char(#[trigger] s@[j]),
            val == digits_val(s@.subrange(0, i as int)),
        decreases n - i,
    {
        let c = s.get_char(i);
        if !('0' <= c && c <= '9') {
            return None;
        }
        let d: u32 = (c as u32) - 48;
        // u32::MAX is 4294967295, so one more digit fits exactly when the
        // value so far is below 429496729, or equals it with a final digit
        // of at most 5.
        if val > 429496729 || (val == 429496729 && d > 5) {
            proof {
                if is_digit_seq(s@) {
                    lemma_digits_val_bounds(s@, i as int + 1);
                    assert(s@.subrange(0, i as int + 1).drop_last() =~= s@.subrange(0, i as int));
                    assert(digits_val(s@.subrange(0, i as int + 1)) == 10 * (val as int) + d);
                }
            }
            return None;
        }
        proof {
            assert(s@.subrange(0, i as int + 1).drop_last() =~= s@.subrange(0, i as int));
        }
        val = val * 10 + d;
        i = i + 1;
    }
    proof {
        assert(s@.subrange(0, n as int) =~= s@);
        lemma_digits_val_nonneg(s@);
    }
    Some(val)
}

// ----------------------------------------------------------------------------
// Layers and their mathematical models
// ----------------------------------------------------------------------------

/// Model of a text layer.
pub struct SpecTextLayer {
    pub text: Seq<char>,
    pub font_size: u32,
    pub font_weight: FontWeight,
}

/// Model of a title layer.
pub struct SpecTitleLayer {
    pub text: Seq<char>,
    pub font_size: u32,
    pub font_weight: FontWeight,
    pub color: u32,
}

/// Model of one layer.
pub enum SpecLayer {
    Text(SpecTextLayer),
    Title(SpecTitleLayer),
    GarbageNode(SpecNode),
    Garbage(SpecGarbage),
}

/// The font size the attributes select, walked in source order: the last
/// attribute whose key (after trimming trailing spaces) is `font_size`
/// decides. Its value decides when it parses as a whole number; otherwise
/// the default comes back.
pub open spec fn spec_font_size(attrs: Seq<SpecAttribute>, default_size: u32) -> u32
    decreases attrs.len(),
{
    if attrs.len() == 0 {
        default_size
    } else {
        let a = attrs.last();
        if spec_trim_trailing_spaces(a.name) == "font_size"@ {
            match spec_parse_font_size(a.value) {
                Some(v) => v,
                None => default_size,
            }
        } else {
            spec_font_size(attrs.drop_last(), default_size)
        }
    }
}

/// The text layer a block resolves to.
pub open spec fn spec_text_layer(n: SpecNode) -> SpecTextLayer {
    SpecTextLayer {
        text: n.body,
        font_size: spec_font_size(n.attributes, 16),
        font_weight: FontWeight::Medium,
    }
}

/// The title layer a block resolves to.
pub open spec fn spec_title_layer(n: SpecNode) -> SpecTitleLayer {
    SpecTitleLayer {
        text: n.body,
        font_size: spec_font_size(n.attributes, 24),
        font_weight: FontWeight::Bold,
        color: 0x0000_0000,
    }
}

/// The layer one parsed entry resolves to. A reserved slot never reaches
/// the resolver (the document must be complete); mapping it to an empty
/// diagnostic merely keeps this function total.
pub open spec fn spec_layer_of(e: SpecEntry) -> SpecLayer {
    match e {
        SpecEntry::Block(n) => {
            if n.kind == "text"@ {
                SpecLayer::Text(spec_text_layer(n))
            } else if n.kind == "title"@ {
                SpecLayer::Title(spec_title_layer(n))
            } else {
                SpecLayer::GarbageNode(n)
            }
        },
        SpecEntry::Garbage(g) => SpecLayer::Garbage(g),
        SpecEntry::Reserved => SpecLayer::Garbage(
            SpecGarbage { text: Seq::empty(), message: Seq::empty() },
        ),
    }
}

/// The layers a whole document resolves to, entry by entry.
pub open spec fn spec_layers(entries: Seq<SpecEntry>) -> Seq<SpecLayer> {
    entries.map_values(|e: SpecEntry| spec_layer_of(e))
}

/// One layer per parsed entry, in the same order: resolving a document
/// yields exactly as many layers as the document has entries, and the
/// layer at each position is the resolution of the entry at that
/// position.
pub proof fn lemma_one_layer_per_entry(entries: Seq<SpecEntry>)
    ensures
        spec_layers(entries).len() == entries.len(),
        forall|i: int|
            0 <= i < entries.len() ==> #[trigger] spec_layers(entries)[i] == spec_layer_of(
                entries[i],
            ),
{
}

// ----------------------------------------------------------------------------
// Executable layers
// ----------------------------------------------------------------------------

/// A block of running text: its content and styling attributes.
#[derive(Debug, PartialEq, Eq)]
pub struct TextLayer {
    pub text: String,
    pub font_size: u32,
    pub font_weight: FontWeight,
}

impl View for TextLayer {
    type V = SpecTextLayer;

    open spec fn view(&self) -> SpecTextLayer {
        SpecTextLayer {
            text: self.text@,
            font_size: self.font_size,
            font_weight: self.font_weight,
        }
    }
}

impl Default for TextLayer {
    /// An empty text layer: font size 16, medium weight.
    fn default() -> (r: Self)
        ensures
            r@ == (SpecTextLayer {
                text: Seq::<char>::empty(),
                font_size: 16u32,
                font_weight: FontWeight::Medium,
            }),
    {
        Self { text: String::new(), font_size: 16, font_weight: FontWeight::Medium }
    }
}

/// A title: its content and styling attributes, color included.
#[derive(Debug, PartialEq, Eq)]
pub struct TitleLayer {
    pub text: String,
    pub font_size: u32,
    pub font_weight: FontWeight,
    pub color: u32,
}

impl View for TitleLayer {
    type V = SpecTitleLayer;

    open spec fn view(&self) -> SpecTitleLayer {
        SpecTitleLayer {
            text: self.text@,
            font_size: self.font_size,
            font_weight: self.font_weight,
            color: self.color,
        }
    }
}

impl Default for TitleLayer {
    /// An empty title layer: font size 24, bold weight, opaque black.
    fn default() -> (r: Self)
        ensures
            r@ == (SpecTitleLayer {
                text: Seq::<char>::empty(),
                font_size: 24u32,
                font_weight: FontWeight::Bold,
                color: 0u32,
            }),
    {
        Self { text: String::new(), font_size: 24, font_weight: FontWeight::Bold, color: 0 }
    }
}

/// Resolves the font size a block's attributes select, walking them in
/// source order so that the last matching attribute decides.
fn resolve_font_size(attributes: &Vec<crate::parse::Attribute>, default_size: u32) -> (r: u32)
    ensures
        r == spec_font_size(crate::parse::attribute_views(attributes@), default_size),
{
    let ghost attrs = crate::parse::attribute_views(attributes@);
    let mut size: u32 = default_size;
    let mut i: usize = 0;
    while i < attributes.len()
        invariant
            attrs == crate::parse::attribute_views(attributes@),
            attrs.len() == attributes@.len(),
            i <= attributes@.len(),
            size == spec_font_size(attrs.subrange(0, i as int), default_size),
        decreases attributes@.len() - i,
    {
        let key = clean_up_for_attribute_key(attributes[i].name.as_str());
        if str_eq(key.as_str(), "font_size") {
            size = match parse_font_size(attributes[i].value.as_str()) {
                Some(v) => v,
                None => default_size,
            };
        }
        proof {
            let t = attrs.subrange(0, i as int + 1);
            assert(t.drop_last() =~= attrs.subrange(0, i as int));
            assert(t.last() == attrs[i as int]);
            assert(attrs[i as int] == attributes@[i as int]@);
        }
        i = i + 1;
    }
    proof {
        assert(attrs.subrange(0, attrs.len() as int) =~= attrs);
    }
    size
}

impl TextLayer {
    /// The text layer a block resolves to: its body as content, and the
    /// defaults overridden by a `font_size` attribute where one parses.
    pub fn from(value: &Node) -> (r: TextLayer)
        ensures
            r@ == spec_text_layer(value@),
    {
        let font_size = resolve_font_size(&value.attributes, 16);
        TextLayer { text: value.body.clone(), font_size, font_weight: FontWeight::Medium }
    }
}

impl TitleLayer {
    /// The title layer a block resolves to: its body as content, and the
    /// defaults overridden by a `font_size` attribute where one parses.
    pub fn from(value: &Node) -> (r: TitleLayer)
        ensures
            r@ == spec_title_layer(value@),
    {
        let font_size = resolve_font_size(&value.attributes, 24);
        TitleLayer {
            text: value.body.clone(),
            font_size,
            font_weight: FontWeight::Bold,
            color: 0,
        }
    }
}

/// One renderable layer: a typed piece of slide content, or a placeholder
/// for input that did not resolve to one.
#[derive(Debug, PartialEq, Eq)]
pub enum Layer {
    Text(TextLayer),
    Title(TitleLayer),
    GarbageNode(Node),
    Garbage(Garbage),
}

impl View for Layer {
    type V = SpecLayer;

    open spec fn view(&self) -> SpecLayer {
        match self {
            Layer::Text(l) => SpecLayer::Text(l@),
            Layer::Title(l) => SpecLayer::Title(l@),
            Layer::GarbageNode(n) => SpecLayer::GarbageNode(n@),
            Layer::Garbage(g) => SpecLayer::Garbage(g@),
        }
    }
}

impl Layer {
    /// The layer a block resolves to, by its kind tag: `text` and `title`
    /// become typed layers, any other kind passes through unchanged as
    /// renderable content.
    pub fn from_node(node: &Node) -> (r: Layer)
        ensures
            r@ == spec_layer_of(SpecEntry::Block(node@)),
    {
        if str_eq(node.kind.as_str(), "text") {
            Layer::Text(TextLayer::from(node))
        } else if str_eq(node.kind.as_str(), "title") {
            Layer::Title(TitleLayer::from(node))
        } else {
            Layer::GarbageNode(node.duplicate())
        }
    }

    /// The layer a diagnostic entry resolves to: the diagnostic itself,
    /// rendered with error styling.
    pub fn from_garbage(garbage: &Garbage) -> (r: Layer)
        ensures
            r@ == spec_layer_of(SpecEntry::Garbage(garbage@)),
    {
        Layer::Garbage(garbage.duplicate())
    }
}

/// The models of a sequence of layers, element-wise.
pub open spec fn layer_views(layers: Seq<Layer>) -> Seq<SpecLayer> {
    layers.map_values(|l: Layer| l@)
}

/// The ordered layer sequence one parsed document resolves to.
#[derive(Debug, PartialEq, Eq)]
pub struct Layers(Vec<Layer>);

impl Layers {
    /// The models of the layers, in document order.
    pub closed spec fn spec_view(&self) -> Seq<SpecLayer> {
        layer_views(self.0@)
    }
}

impl Default for Layers {
    /// No layers at all.
    fn default() -> (r: Self)
        ensures
            r.spec_view() == Seq::<SpecLayer>::empty(),
    {
        let layers = Layers(Vec::new());
        proof {
            assert(layer_views(layers.0@) =~= Seq::<SpecLayer>::empty());
        }
        layers
    }
}

impl Layers {
    /// The layers in document order.
    pub fn view(&self) -> (r: &Vec<Layer>)
        ensures
            layer_views(r@) == self.spec_view(),
    {
        &self.0
    }

    /// Resolves a complete parsed document into its layers: one layer per
    /// entry, in the order the entries were encountered in the source.
    pub fn from(ast: &AST) -> (r: Layers)
        requires
            ast.complete(),
        ensures
            r.spec_view() == spec_layers(ast.entries()),
    {
        let mut layers: Vec<Layer> = Vec::new();
        let slots = ast.view();
        let n: usize = slots.len();
        let mut i: usize = 0;
        while i < n
            invariant
                ast.complete(),
                n == ast.spec_slots().len(),
                slots@ == ast.spec_slots(),
                i <= n,
                layer_views(layers@) == spec_layers(ast.entries()).subrange(0, i as int),
            decreases n - i,
        {
            let ghost prev = layers@;
            let ghost entries = ast.entries();
            proof {
                assert(ast.slot_wf(ast.spec_slots()[i as int]));
                assert(entries[i as int] == ast.entry_of(ast.spec_slots()[i as int]));
                assert(layer_views(prev).len() == prev.len());
                assert(spec_layers(entries)[i as int] == spec_layer_of(entries[i as int]));
            }
            match slots[i] {
                AstNode::Node(id) => {
                    layers.push(Layer::from_node(ast.get_node(id)));
                },
                AstNode::Garbage(id) => {
                    layers.push(Layer::from_garbage(ast.get_garbage(id)));
                },
                AstNode::Reserve => {
                    proof {
                        assert(false);
                    }
                },
            }
            proof {
                assert(layers@ == prev.push(layers@.last()));
                assert(layers@.last()@ == spec_layer_of(entries[i as int]));
                assert(layer_views(layers@) =~= layer_views(prev).push(layers@.last()@));
                assert(spec_layers(entries).subrange(0, i as int + 1) =~= spec_layers(
                    entries,
                ).subrange(0, i as int).push(spec_layers(entries)[i as int]));
            }
            i = i + 1;
        }
        proof {
            assert(spec_layers(ast.entries()).subrange(
                0,
                spec_layers(ast.entries()).len() as int,
            ) =~= spec_layers(ast.entries()));
        }
        Layers(layers)
    }
}

} // verus!
