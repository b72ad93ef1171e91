//! Parser for the `sil` document format.
//!
//! `parse` consumes the token sequence once, left to right, and produces an
//! ordered sequence of entries that are either well-formed blocks or
//! diagnostic (garbage) entries. It recovers from malformed input at the
//! finest granularity possible and never fails: stray tokens outside a
//! block, malformed block headers and dangling attribute assignments all
//! become garbage entries inline, at the position they occurred, without
//! interrupting the rest of the document.
//!
//! The document is built in two phases: a slot is reserved in the output
//! order as soon as an entry is encountered, and filled exactly once when
//! the entry is finished. Every slot is filled before the document is
//! handed out, so no caller ever observes the reserved state.

use vstd::prelude::*;

use crate::lex::SpecToken;
use crate::lex::Token;
use crate::lex::TokenKind;
use crate::lex::lemma_token_text_is_span;
use crate::lex::text_end;
use crate::lex::text_start;
use crate::lex::token_text;
use crate::lex::token_wf;
use crate::lex::tokens_wf;
use crate::lex::views_of;

verus! {

// ----------------------------------------------------------------------------
// Parsed data and its mathematical models
// ----------------------------------------------------------------------------

/// Model of one attribute: a name and the text of its value token.
pub struct SpecAttribute {
    pub name: Seq<char>,
    pub value: Seq<char>,
}

/// Model of one block: a kind tag, its attributes in source order, and the
/// body text.
pub struct SpecNode {
    pub kind: Seq<char>,
    pub attributes: Seq<SpecAttribute>,
    pub body: Seq<char>,
}

/// Model of one diagnostic entry: the text of the offending tokens and a
/// static message naming what went wrong.
pub struct SpecGarbage {
    pub text: Seq<char>,
    pub message: Seq<char>,
}

/// Model of one slot of the parsed document.
pub enum SpecEntry {
    Block(SpecNode),
    Garbage(SpecGarbage),
    Reserved,
}

/// An attribute of a block: a name and the value text of a single `Quoted`
/// or `Number` token.
#[derive(Debug, PartialEq, Eq)]
pub struct Attribute {
    pub name: String,
    pub value: String,
}

impl View for Attribute {
    type V = SpecAttribute;

    open spec fn view(&self) -> SpecAttribute {
        SpecAttribute { name: self.name@, value: self.value@ }
    }
}

impl Attribute {
    /// The text of the attribute's value token, quote characters already
    /// stripped for a quoted value.
    pub fn value_text(&self) -> (r: &str)
        ensures
            r@ == self@.value,
    {
        self.value.as_str()
    }
}

/// The models of a sequence of attributes, element-wise.
pub open spec fn attribute_views(attrs: Seq<Attribute>) -> Seq<SpecAttribute> {
    attrs.map_values(|a: Attribute| a@)
}

/// A well-formed block: a kind tag, its attributes, and the body text,
/// spliced out of the source as one contiguous character range.
#[derive(Debug, PartialEq, Eq)]
pub struct Node {
    pub kind: String,
    pub attributes: Vec<Attribute>,
    pub body: String,
}

impl View for Node {
    type V = SpecNode;

    open spec fn view(&self) -> SpecNode {
        SpecNode {
            kind: self.kind@,
            attributes: attribute_views(self.attributes@),
            body: self.body@,
        }
    }
}

impl Node {
    /// The block's body text.
    pub fn text(&self) -> (r: &str)
        ensures
            r@ == self@.body,
    {
        self.body.as_str()
    }

    /// A fresh node with the same kind, attributes and body.
    pub fn duplicate(&self) -> (r: Node)
        ensures
            r@ == self@,
    {
        let kind = self.kind.clone();
        let body = self.body.clone();
        let mut attributes: Vec<Attribute> = Vec::new();
        let mut i: usize = 0;
        while i < self.attributes.len()
            invariant
                i <= self.attributes.len(),
                attribute_views(attributes@) =~= attribute_views(self.attributes@).subrange(
                    0,
                    i as int,
                ),
            decreases self.attributes.len() - i,
        {
            let a = Attribute {
                name: self.attributes[i].name.clone(),
                value: self.attributes[i].value.clone(),
            };
            let ghost prev = attributes@;
            let ghost aval = a;
            attributes.push(a);
            proof {
                assert(attribute_views(prev).len() == prev.len());
                assert(attribute_views(prev).len() == i as int);
                assert(attributes@ == prev.push(aval));
                assert(aval == self.attributes@[i as int]);
                assert forall|j: int| 0 <= j < i as int + 1 implies attribute_views(
                    attributes@,
                )[j] == attribute_views(self.attributes@).subrange(0, i as int + 1)[j] by {
                    if j < i as int {
                        assert(attribute_views(prev)[j] == attribute_views(
                            self.attributes@,
                        ).subrange(0, i as int)[j]);
                    } else {
                        assert(attributes@[j] == aval);
                    }
                }
                assert(attribute_views(attributes@) =~= attribute_views(
                    self.attributes@,
                ).subrange(0, i as int + 1));
            }
            i = i + 1;
        }
        proof {
            assert(attribute_views(self.attributes@).subrange(
                0,
                self.attributes@.len() as int,
            ) =~= attribute_views(self.attributes@));
        }
        Node { kind, attributes, body }
    }
}

/// A diagnostic entry: the contiguous text of the offending tokens and a
/// static message describing why parsing failed there.
#[derive(Debug, PartialEq, Eq)]
pub struct Garbage {
    text: String,
    message: &'static str,
}

impl View for Garbage {
    type V = SpecGarbage;

    closed spec fn view(&self) -> SpecGarbage {
        SpecGarbage { text: self.text@, message: self.message@ }
    }
}

impl Garbage {
    /// The text of the offending tokens, as it stood in the source.
    pub fn text(&self) -> (r: &str)
        ensures
            r@ == self@.text,
    {
        self.text.as_str()
    }

    /// The static diagnostic message.
    pub fn message(&self) -> (r: &str)
        ensures
            r@ == self@.message,
    {
        self.message
    }

    /// A fresh diagnostic with the same text and message.
    pub fn duplicate(&self) -> (r: Garbage)
        ensures
            r@ == self@,
    {
        Garbage { text: self.text.clone(), message: self.message }
    }
}

// ----------------------------------------------------------------------------
// The parsed document: slots over two arenas
// ----------------------------------------------------------------------------

/// Handle of a block in the document's node arena.
#[derive(Clone, Copy, Debug, PartialEq, Eq, Structural)]
pub struct NodeId(pub usize);

/// Handle of a diagnostic in the document's garbage arena.
#[derive(Clone, Copy, Debug, PartialEq, Eq, Structural)]
pub struct GarbageId(pub usize);

/// A reserved position in the document order, to be filled exactly once.
#[derive(Debug, PartialEq, Eq, Structural)]
pub struct AstSlot(pub usize);

/// One slot of the document order: a finished block, a finished
/// diagnostic, or a reservation not yet filled.
#[derive(Clone, Copy, Debug, PartialEq, Eq, Structural)]
pub enum AstNode {
    Node(NodeId),
    Garbage(GarbageId),
    Reserve,
}

/// The parsed document: blocks and diagnostics in two arenas, and the
/// ordered slot sequence that refers into them. Slot order is the order
/// entries were encountered in the source, which may differ from the order
/// they were finished in the arenas.
#[derive(Debug, PartialEq)]
pub struct AST {
    nodes: Vec<Node>,
    garbages: Vec<Garbage>,
    ast: Vec<AstNode>,
}

impl AST {
    /// The models of the blocks stored so far, in arena order.
    pub closed spec fn spec_nodes(&self) -> Seq<SpecNode> {
        self.nodes@.map_values(|n: Node| n@)
    }

    /// The models of the diagnostics stored so far, in arena order.
    pub closed spec fn spec_garbages(&self) -> Seq<SpecGarbage> {
        self.garbages@.map_values(|g: Garbage| g@)
    }

    /// The slot sequence, in document order.
    pub closed spec fn spec_slots(&self) -> Seq<AstNode> {
        self.ast@
    }

    /// A slot refers into the arenas, or is still reserved.
    pub open spec fn slot_wf(&self, a: AstNode) -> bool {
        match a {
            AstNode::Node(id) => id.0 < self.spec_nodes().len(),
            AstNode::Garbage(id) => id.0 < self.spec_garbages().len(),
            AstNode::Reserve => true,
        }
    }

    /// Every slot refers into the arenas.
    pub open spec fn wf(&self) -> bool {
        forall|i: int|
            0 <= i < self.spec_slots().len() ==> self.slot_wf(#[trigger] self.spec_slots()[i])
    }

    /// Every slot is filled: none is left in the reserved state.
    pub open spec fn complete(&self) -> bool {
        &&& self.wf()
        &&& forall|i: int|
            0 <= i < self.spec_slots().len() ==> !((#[trigger] self.spec_slots()[i]) is Reserve)
    }

    /// The entry a slot value stands for.
    pub open spec fn entry_of(&self, a: AstNode) -> SpecEntry {
        match a {
            AstNode::Node(id) => SpecEntry::Block(self.spec_nodes()[id.0 as int]),
            AstNode::Garbage(id) => SpecEntry::Garbage(self.spec_garbages()[id.0 as int]),
            AstNode::Reserve => SpecEntry::Reserved,
        }
    }

    /// The document as the ordered sequence of its entries.
    pub open spec fn entries(&self) -> Seq<SpecEntry> {
        self.spec_slots().map_values(|a: AstNode| self.entry_of(a))
    }

    /// An empty document.
    pub fn new() -> (ast: AST)
        ensures
            ast.spec_nodes() == Seq::<SpecNode>::empty(),
            ast.spec_garbages() == Seq::<SpecGarbage>::empty(),
            ast.spec_slots() == Seq::<AstNode>::empty(),
            ast.entries() == Seq::<SpecEntry>::empty(),
            ast.complete(),
    {
        let ast = AST { nodes: Vec::new(), garbages: Vec::new(), ast: Vec::new() };
        proof {
            assert(ast.spec_nodes() =~= Seq::<SpecNode>::empty());
            assert(ast.spec_garbages() =~= Seq::<SpecGarbage>::empty());
            assert(ast.entries() =~= Seq::<SpecEntry>::empty());
        }
        ast
    }

    /// The slot sequence, for walking the document in order.
    pub fn view(&self) -> (r: &Vec<AstNode>)
        ensures
            r@ == self.spec_slots(),
    {
        &self.ast
    }

    /// The block a slot handle refers to.
    pub fn get_node(&self, id: NodeId) -> (r: &Node)
        requires
            id.0 < self.spec_nodes().len(),
        ensures
            r@ == self.spec_nodes()[id.0 as int],
    {
        &self.nodes[id.0]
    }

    /// The diagnostic a slot handle refers to.
    pub fn get_garbage(&self, id: GarbageId) -> (r: &Garbage)
        requires
            id.0 < self.spec_garbages().len(),
        ensures
            r@ == self.spec_garbages()[id.0 as int],
    {
        &self.garbages[id.0]
    }

    /// Stores a finished block in the arena and hands back the slot value
    /// that refers to it. The slot sequence itself is not touched.
    pub fn push_node(&mut self, node: Node) -> (r: AstNode)
        ensures
            final(self).spec_nodes() == old(self).spec_nodes().push(node@),
            final(self).spec_garbages() == old(self).spec_garbages(),
            final(self).spec_slots() == old(self).spec_slots(),
            old(self).spec_nodes().len() <= usize::MAX,
            r == AstNode::Node(NodeId(old(self).spec_nodes().len() as usize)),
    {
        let index: usize = self.nodes.len();
        let ghost prev = self.nodes@;
        self.nodes.push(node);
        proof {
            assert(self.spec_nodes() =~= prev.map_values(|n: Node| n@).push(
                self.nodes@.last()@,
            ));
        }
        AstNode::Node(NodeId(index))
    }

    /// Stores a finished diagnostic in the arena and hands back the slot
    /// value that refers to it. The slot sequence itself is not touched.
    fn push_garbage(&mut self, garbage: Garbage) -> (r: AstNode)
        ensures
            final(self).spec_garbages() == old(self).spec_garbages().push(garbage@),
            final(self).spec_nodes() == old(self).spec_nodes(),
            final(self).spec_slots() == old(self).spec_slots(),
            old(self).spec_garbages().len() <= usize::MAX,
            r == AstNode::Garbage(GarbageId(old(self).spec_garbages().len() as usize)),
    {
        let index: usize = self.garbages.len();
        let ghost prev = self.garbages@;
        self.garbages.push(garbage);
        proof {
            assert(self.spec_garbages() =~= prev.map_values(|g: Garbage| g@).push(
                self.garbages@.last()@,
            ));
        }
        AstNode::Garbage(GarbageId(index))
    }

    /// Reserves the next slot in document order. The reservation must be
    /// filled exactly once before the document is handed out.
    pub fn reserve_slot(&mut self) -> (s: AstSlot)
        ensures
            final(self).spec_slots() == old(self).spec_slots().push(AstNode::Reserve),
            final(self).spec_nodes() == old(self).spec_nodes(),
            final(self).spec_garbages() == old(self).spec_garbages(),
            old(self).spec_slots().len() <= usize::MAX,
            s == AstSlot(old(self).spec_slots().len() as usize),
    {
        let index: usize = self.ast.len();
        self.ast.push(AstNode::Reserve);
        AstSlot(index)
    }

    /// Fills a reserved slot with a finished entry. The reservation is
    /// consumed, so a slot can be filled only once.
    pub fn fill_slot(&mut self, slot: AstSlot, value: AstNode)
        requires
            slot.0 < old(self).spec_slots().len(),
            old(self).spec_slots()[slot.0 as int] is Reserve,
            !(value is Reserve),
        ensures
            final(self).spec_slots() == old(self).spec_slots().update(slot.0 as int, value),
            final(self).spec_nodes() == old(self).spec_nodes(),
            final(self).spec_garbages() == old(self).spec_garbages(),
    {
        self.ast.set(slot.0, value);
    }
}

// ----------------------------------------------------------------------------
// The parsing function, as a mathematical definition
// ----------------------------------------------------------------------------

/// The index facts of `views_of`, stated once for the proofs below.
pub proof fn lemma_views_of_index(toks: Seq<Token>)
    ensures
        views_of(toks).len() == toks.len(),
        forall|x: int| 0 <= x < toks.len() ==> #[trigger] views_of(toks)[x] == toks[x]@,
{
}

/// Message of the garbage entry for one stray token of the given kind.
/// An open bracket starts a block and never becomes a stray entry, so no
/// message belongs to it.
pub open spec fn stray_message(k: TokenKind) -> Seq<char> {
    match k {
        TokenKind::Number => "unexpected number"@,
        TokenKind::Text => "unexpected text"@,
        TokenKind::Quoted => "unexpected quoted"@,
        TokenKind::OpenBracket => Seq::empty(),
        TokenKind::CloseBracket => "unexpected close bracket"@,
        TokenKind::Colon => "unexpected colon"@,
        TokenKind::EqualSign => "unexpected equal sign"@,
    }
}

/// Two tokens `Text`, `=` stand at `k`: the start of an attribute.
pub open spec fn is_attr_start(toks: Seq<SpecToken>, k: int) -> bool {
    &&& 0 <= k
    &&& k + 2 <= toks.len()
    &&& toks[k].kind is Text
    &&& toks[k + 1].kind is EqualSign
}

/// A token kind that may stand as an attribute value.
pub open spec fn is_value_kind(k: TokenKind) -> bool {
    k is Quoted || k is Number
}

/// A block header `[`, `Text`, `]` stands at `k`.
pub open spec fn is_header_at(toks: Seq<SpecToken>, k: int) -> bool {
    &&& 0 <= k
    &&& k + 3 <= toks.len()
    &&& toks[k].kind is OpenBracket
    &&& toks[k + 1].kind is Text
    &&& toks[k + 2].kind is CloseBracket
}

/// Attribute scan from `k` on: the number of tokens consumed, the
/// attributes collected, and the garbage entries for dangling assignments,
/// each in source order. The scan stops at the first pair of tokens that is
/// not `Text`, `=`; a dangling assignment with no valid value consumes
/// exactly the name token and becomes one garbage entry.
pub open spec fn spec_attributes(toks: Seq<SpecToken>, k: int) -> (int, Seq<SpecAttribute>, Seq<
    SpecGarbage,
>)
    decreases toks.len() - k
    when 0 <= k <= toks.len()
{
    if is_attr_start(toks, k) {
        if k + 3 <= toks.len() && is_value_kind(toks[k + 2].kind) {
            let rest = spec_attributes(toks, k + 3);
            (
                3 + rest.0,
                seq![SpecAttribute { name: toks[k].text, value: token_text(toks[k + 2]) }]
                    + rest.1,
                rest.2,
            )
        } else {
            let rest = spec_attributes(toks, k + 1);
            (
                1 + rest.0,
                rest.1,
                seq![SpecGarbage { text: token_text(toks[k]), message: "not an attribute"@ }]
                    + rest.2,
            )
        }
    } else {
        (0, Seq::<SpecAttribute>::empty(), Seq::<SpecGarbage>::empty())
    }
}

pub proof fn lemma_spec_attributes_bounds(toks: Seq<SpecToken>, k: int)
    requires
        0 <= k <= toks.len(),
    ensures
        0 <= spec_attributes(toks, k).0,
        k + spec_attributes(toks, k).0 <= toks.len(),
    decreases toks.len() - k,
{
    if is_attr_start(toks, k) {
        if k + 3 <= toks.len() && is_value_kind(toks[k + 2].kind) {
            lemma_spec_attributes_bounds(toks, k + 3);
        } else {
            lemma_spec_attributes_bounds(toks, k + 1);
        }
    }
}

/// First position at or after `k` where a block header stands, or end of
/// the tokens: the body of a block runs up to there.
pub open spec fn spec_body_end(toks: Seq<SpecToken>, k: int) -> int
    decreases toks.len() - k
    when 0 <= k <= toks.len()
{
    if k == toks.len() {
        k
    } else if is_header_at(toks, k) {
        k
    } else {
        spec_body_end(toks, k + 1)
    }
}

pub proof fn lemma_spec_body_end(toks: Seq<SpecToken>, k: int)
    requires
        0 <= k <= toks.len(),
    ensures
        k <= spec_body_end(toks, k) <= toks.len(),
    decreases toks.len() - k,
{
    if k < toks.len() && !is_header_at(toks, k) {
        lemma_spec_body_end(toks, k + 1);
    }
}

/// The text of the token range `[b, e)`: the contiguous span of the source
/// from the first token's text to the last token's text. Inter-token
/// spacing is preserved exactly as it appeared in the source and no
/// character is invented.
pub open spec fn span_text(src: Seq<char>, toks: Seq<SpecToken>, b: int, e: int) -> Seq<char> {
    if b >= e {
        Seq::empty()
    } else {
        src.subrange(text_start(toks[b]), text_end(toks[e - 1]))
    }
}

/// How many tokens one block parse starting at `i` consumes.
pub open spec fn spec_block_consumed(toks: Seq<SpecToken>, i: int) -> int {
    if toks.len() - i < 3 {
        toks.len() - i
    } else if is_header_at(toks, i) {
        spec_body_end(toks, i + 3 + spec_attributes(toks, i + 3).0) - i
    } else {
        toks.len() - i
    }
}

/// The entries one block parse starting at `i` emits: the block itself --
/// or a single garbage entry covering the whole remaining token window
/// when the header is malformed or fewer than three tokens remain --
/// followed by the garbage entries of its dangling attribute assignments.
pub open spec fn spec_block_entries(src: Seq<char>, toks: Seq<SpecToken>, i: int) -> Seq<
    SpecEntry,
> {
    if toks.len() - i < 3 {
        seq![
            SpecEntry::Garbage(
                SpecGarbage {
                    text: span_text(src, toks, i, toks.len() as int),
                    message: "too few tokens"@,
                },
            ),
        ]
    } else if is_header_at(toks, i) {
        let attrs = spec_attributes(toks, i + 3);
        let b = i + 3 + attrs.0;
        let e = spec_body_end(toks, b);
        seq![
            SpecEntry::Block(
                SpecNode {
                    kind: toks[i + 1].text,
                    attributes: attrs.1,
                    body: span_text(src, toks, b, e),
                },
            ),
        ] + attrs.2.map_values(|g: SpecGarbage| SpecEntry::Garbage(g))
    } else {
        seq![
            SpecEntry::Garbage(
                SpecGarbage {
                    text: span_text(src, toks, i, toks.len() as int),
                    message: "unexpected tokens"@,
                },
            ),
        ]
    }
}

pub proof fn lemma_spec_block_consumed(toks: Seq<SpecToken>, i: int)
    requires
        0 <= i < toks.len(),
    ensures
        1 <= spec_block_consumed(toks, i),
        i + spec_block_consumed(toks, i) <= toks.len(),
{
    if toks.len() - i >= 3 && is_header_at(toks, i) {
        lemma_spec_attributes_bounds(toks, i + 3);
        lemma_spec_body_end(toks, i + 3 + spec_attributes(toks, i + 3).0);
    }
}

/// The entries that parsing yields from token position `i` on: one garbage
/// entry per stray token, and the entries of one block parse per open
/// bracket.
pub open spec fn spec_parse_from(src: Seq<char>, toks: Seq<SpecToken>, i: int) -> Seq<SpecEntry>
    decreases toks.len() - i
    when 0 <= i <= toks.len()
    via spec_parse_from_decreases
{
    if i == toks.len() {
        Seq::empty()
    } else if toks[i].kind is OpenBracket {
        spec_block_entries(src, toks, i) + spec_parse_from(
            src,
            toks,
            i + spec_block_consumed(toks, i),
        )
    } else {
        seq![
            SpecEntry::Garbage(
                SpecGarbage { text: token_text(toks[i]), message: stray_message(toks[i].kind) },
            ),
        ] + spec_parse_from(src, toks, i + 1)
    }
}

#[via_fn]
proof fn spec_parse_from_decreases(src: Seq<char>, toks: Seq<SpecToken>, i: int) {
    if 0 <= i < toks.len() {
        lemma_spec_block_consumed(toks, i);
    }
}

/// The entries that parsing the whole token sequence yields.
pub open spec fn spec_parse(src: Seq<char>, toks: Seq<SpecToken>) -> Seq<SpecEntry> {
    spec_parse_from(src, toks, 0)
}

/// In a well-formed token sequence, tokens do not overlap: an earlier
/// token ends no later than a later one starts.
pub proof fn lemma_tokens_ordered(src: Seq<char>, toks: Seq<SpecToken>, i: int, j: int)
    requires
        tokens_wf(src, toks),
        0 <= i < j < toks.len(),
    ensures
        toks[i].start + toks[i].text.len() <= toks[j].start,
    decreases j - i,
{
    if i + 1 < j {
        lemma_tokens_ordered(src, toks, i + 1, j);
        assert(token_wf(src, toks[i + 1]));
    }
}

// ----------------------------------------------------------------------------
// Executable parser
// ----------------------------------------------------------------------------

/// Character position in the source where the token's contributed text
/// begins.
fn token_text_start(t: &Token) -> (r: usize)
    requires
        1 <= t@.text.len(),
        t@.start + t@.text.len() <= usize::MAX,
    ensures
        r as int == text_start(t@),
{
    match t {
        Token::Quoted(s) => s.start + 1,
        Token::Number(s) => s.start,
        Token::Text(s) => s.start,
        Token::OpenBracket(s) => s.start,
        Token::CloseBracket(s) => s.start,
        Token::Colon(s) => s.start,
        Token::EqualSign(s) => s.start,
    }
}

/// Character position in the source just past the token's contributed
/// text.
fn token_text_end(t: &Token) -> (r: usize)
    requires
        1 <= t@.text.len(),
        t@.start + t@.text.len() <= usize::MAX,
    ensures
        r as int == text_end(t@),
{
    match t {
        Token::Quoted(s) => {
            let n: usize = s.text.as_str().unicode_len();
            if n < 2 {
                s.start + 1
            } else if s.text.as_str().get_char(n - 1) == '"' {
                s.start + n - 1
            } else {
                s.start + n
            }
        },
        _ => {
            let n: usize = t.raw_text().unicode_len();
            t.start() + n
        },
    }
}

/// Splices the text of the token range `[b, e)` out of the source: one
/// contiguous character range from the first token's text to the last
/// token's text. The spacing between the tokens is preserved exactly as it
/// appeared in the source; no separator is invented.
fn consolidate_tokens_into_string(source: &str, tokens: &Vec<Token>, b: usize, e: usize) -> (r:
    String)
    requires
        tokens_wf(source@, views_of(tokens@)),
        b <= e <= tokens@.len(),
    ensures
        r@ == span_text(source@, views_of(tokens@), b as int, e as int),
{
    proof {
        lemma_views_of_index(tokens@);
    }
    if b == e {
        String::new()
    } else {
        let source_len: usize = source.unicode_len();
        let ghost toks = views_of(tokens@);
        proof {
            assert(token_wf(source@, toks[b as int]));
            assert(token_wf(source@, toks[e - 1]));
            lemma_token_text_is_span(source@, toks[b as int]);
            lemma_token_text_is_span(source@, toks[e - 1]);
            if (b as int) < e - 1 {
                lemma_tokens_ordered(source@, toks, b as int, e - 1);
            }
        }
        let ts: usize = token_text_start(&tokens[b]);
        let te: usize = token_text_end(&tokens[e - 1]);
        source.substring_char(ts, te).to_owned()
    }
}

/// Does a block header `[ Text ]` stand at `k`?
fn is_block_header(tokens: &Vec<Token>, k: usize) -> (b: bool)
    ensures
        b == is_header_at(views_of(tokens@), k as int),
{
    proof {
        lemma_views_of_index(tokens@);
    }
    if k >= tokens.len() || tokens.len() - k < 3 {
        false
    } else {
        tokens[k].kind() == TokenKind::OpenBracket && tokens[k + 1].kind() == TokenKind::Text
            && tokens[k + 2].kind() == TokenKind::CloseBracket
    }
}

/// Do two tokens `Text`, `=` stand at `k`?
fn is_attribute_start(tokens: &Vec<Token>, k: usize) -> (b: bool)
    ensures
        b == is_attr_start(views_of(tokens@), k as int),
{
    proof {
        lemma_views_of_index(tokens@);
    }
    if k >= tokens.len() || tokens.len() - k < 2 {
        false
    } else {
        tokens[k].kind() == TokenKind::Text && tokens[k + 1].kind() == TokenKind::EqualSign
    }
}

/// Outcome of one attribute parse: a finished attribute, or a diagnostic
/// for a dangling assignment with no valid value.
#[allow(inconsistent_fields)]
enum ParseAttribute {
    Attribute { value: Attribute, consumed_tokens: usize },
    Garbage { value: Garbage, consumed_tokens: usize },
}

impl ParseAttribute {
    spec fn spec_consumed(&self) -> usize {
        match self {
            ParseAttribute::Attribute { consumed_tokens, .. } => *consumed_tokens,
            ParseAttribute::Garbage { consumed_tokens, .. } => *consumed_tokens,
        }
    }

    fn consumed_tokens(&self) -> (r: usize)
        ensures
            r == self.spec_consumed(),
    {
        match self {
            ParseAttribute::Attribute { consumed_tokens, .. } => *consumed_tokens,
            ParseAttribute::Garbage { consumed_tokens, .. } => *consumed_tokens,
        }
    }
}

/// Parses one attribute at `k`, where tokens `Text`, `=` stand. A `Quoted`
/// or `Number` token after the equal sign makes an attribute of three
/// tokens; anything else makes a one-token diagnostic, so parsing resumes
/// at the equal sign.
fn parse_attribute(tokens: &Vec<Token>, k: usize) -> (r: ParseAttribute)
    requires
        is_attr_start(views_of(tokens@), k as int),
    ensures
        ({
            let toks = views_of(tokens@);
            if k + 3 <= toks.len() && is_value_kind(toks[k + 2].kind) {
                r matches ParseAttribute::Attribute { value, consumed_tokens }
                    && value@ == (SpecAttribute {
                    name: toks[k as int].text,
                    value: token_text(toks[k + 2]),
                }) && consumed_tokens == 3
            } else {
                r matches ParseAttribute::Garbage { value, consumed_tokens } && value@
                    == (SpecGarbage {
                    text: token_text(toks[k as int]),
                    message: "not an attribute"@,
                }) && consumed_tokens == 1
            }
        }),
{
    proof {
        lemma_views_of_index(tokens@);
    }
    if k < tokens.len() && tokens.len() - k >= 3 {
        let vk = tokens[k + 2].kind();
        if vk == TokenKind::Quoted || vk == TokenKind::Number {
            let name = tokens[k].raw_text().to_owned();
            let value = tokens[k + 2].text();
            return ParseAttribute::Attribute {
                value: Attribute { name, value },
                consumed_tokens: 3,
            };
        }
    }
    ParseAttribute::Garbage {
        value: Garbage { text: tokens[k].text(), message: "not an attribute" },
        consumed_tokens: 1,
    }
}

/// A handle that refers into the arenas of the given document.
pub open spec fn handle_ok(ast: AST, h: AstNode) -> bool {
    match h {
        AstNode::Node(id) => id.0 < ast.spec_nodes().len(),
        AstNode::Garbage(id) => id.0 < ast.spec_garbages().len(),
        AstNode::Reserve => false,
    }
}

/// Outcome of an attribute scan: the attributes in order, the handles of
/// the diagnostics stored for dangling assignments, and how many tokens
/// the scan consumed.
struct ParseAttributes {
    attributes: Vec<Attribute>,
    garbage: Vec<AstNode>,
    consumed_tokens: usize,
}

/// Scans attributes from `start` on, storing a diagnostic in the document
/// for every dangling assignment, and stops at the first pair of tokens
/// that does not open an attribute.
fn parse_attributes(ast: &mut AST, tokens: &Vec<Token>, start: usize) -> (r: ParseAttributes)
    requires
        start <= tokens@.len(),
    ensures
        ({
            let toks = views_of(tokens@);
            let full = spec_attributes(toks, start as int);
            &&& r.consumed_tokens == full.0
            &&& start + r.consumed_tokens <= toks.len()
            &&& attribute_views(r.attributes@) == full.1
            &&& r.garbage@.len() == full.2.len()
            &&& forall|j: int|
                0 <= j < r.garbage@.len() ==> handle_ok(*final(ast), #[trigger] r.garbage@[j])
                    && r.garbage@[j] is Garbage && final(ast).entry_of(r.garbage@[j])
                    == SpecEntry::Garbage(full.2[j])
            &&& final(ast).spec_nodes() == old(ast).spec_nodes()
            &&& final(ast).spec_slots() == old(ast).spec_slots()
            &&& old(ast).spec_garbages().len() <= final(ast).spec_garbages().len()
            &&& forall|j: int|
                0 <= j < old(ast).spec_garbages().len() ==> final(ast).spec_garbages()[j] == old(
                    ast,
                ).spec_garbages()[j]
        }),
{
    let ghost toks = views_of(tokens@);
    let ghost full = spec_attributes(toks, start as int);
    proof {
        lemma_views_of_index(tokens@);
        lemma_spec_attributes_bounds(toks, start as int);
    }
    let n: usize = tokens.len();
    let mut attributes: Vec<Attribute> = Vec::new();
    let mut garbage: Vec<AstNode> = Vec::new();
    let mut k: usize = start;
    while is_attribute_start(tokens, k)
        invariant
            n == toks.len(),
            start <= k <= toks.len(),
            toks == views_of(tokens@),
            full == spec_attributes(toks, start as int),
            full.0 == k - start + spec_attributes(toks, k as int).0,
            full.1 == attribute_views(attributes@) + spec_attributes(toks, k as int).1,
            full.2.len() == garbage@.len() + spec_attributes(toks, k as int).2.len(),
            forall|j: int|
                0 <= j < garbage@.len() ==> handle_ok(*ast, #[trigger] garbage@[j]) && garbage@[j]
                    is Garbage && ast.entry_of(garbage@[j]) == SpecEntry::Garbage(full.2[j]),
            forall|j: int|
                garbage@.len() <= j < full.2.len() ==> full.2[j] == spec_attributes(
                    toks,
                    k as int,
                ).2[j - garbage@.len()],
            ast.spec_nodes() == old(ast).spec_nodes(),
            ast.spec_slots() == old(ast).spec_slots(),
            old(ast).spec_garbages().len() <= ast.spec_garbages().len(),
            forall|j: int|
                0 <= j < old(ast).spec_garbages().len() ==> ast.spec_garbages()[j] == old(
                    ast,
                ).spec_garbages()[j],
        decreases toks.len() - k,
    {
        proof {
            lemma_spec_attributes_bounds(toks, k as int);
        }
        let pa = parse_attribute(tokens, k);
        let ghost rest = spec_attributes(toks, k as int);
        match pa {
            ParseAttribute::Attribute { value, consumed_tokens } => {
                let ghost av = value@;
                attributes.push(value);
                proof {
                    assert(rest == (
                        3 + spec_attributes(toks, k + 3).0,
                        seq![av] + spec_attributes(toks, k + 3).1,
                        spec_attributes(toks, k + 3).2,
                    ));
                    assert(attribute_views(attributes@) =~= attribute_views(
                        attributes@.drop_last(),
                    ).push(av));
                    assert(full.1 =~= attribute_views(attributes@) + spec_attributes(
                        toks,
                        k + 3,
                    ).1);
                }
                k = k + consumed_tokens;
            },
            ParseAttribute::Garbage { value, consumed_tokens } => {
                let ghost gv = value@;
                let ghost garbages0 = ast.spec_garbages();
                let ghost garbage0 = garbage@;
                let h = ast.push_garbage(value);
                garbage.push(h);
                proof {
                    assert(rest == (
                        1 + spec_attributes(toks, k + 1).0,
                        spec_attributes(toks, k + 1).1,
                        seq![gv] + spec_attributes(toks, k + 1).2,
                    ));
                    assert(garbage@ == garbage0.push(h));
                    assert(ast.spec_garbages() == garbages0.push(gv));
                    assert(full.2[garbage0.len() as int] == gv);
                    assert forall|j: int| 0 <= j < garbage@.len() implies handle_ok(
                        *ast,
                        #[trigger] garbage@[j],
                    ) && garbage@[j] is Garbage && ast.entry_of(garbage@[j])
                        == SpecEntry::Garbage(full.2[j]) by {
                        if j < garbage0.len() {
                            assert(garbage@[j] == garbage0[j]);
                            assert(handle_ok(*ast, garbage0[j]));
                        } else {
                            assert(garbage@[j] == h);
                        }
                    }
                }
                k = k + consumed_tokens;
            },
        }
    }
    proof {
        assert(spec_attributes(toks, k as int) == (
            0int,
            Seq::<SpecAttribute>::empty(),
            Seq::<SpecGarbage>::empty(),
        ));
        assert(full.1 =~= attribute_views(attributes@) + Seq::<SpecAttribute>::empty());
        assert(attribute_views(attributes@) + Seq::<SpecAttribute>::empty() =~= attribute_views(
            attributes@,
        ));
    }
    ParseAttributes { attributes, garbage, consumed_tokens: k - start }
}

/// Outcome of a body scan: the body text and how many tokens it covers.
struct ParseBody {
    value: String,
    consumed_tokens: usize,
}

/// Collects the body of a block: every token up to the next block header
/// or end of input, spliced into one contiguous piece of source text.
fn parse_body(source: &str, tokens: &Vec<Token>, start: usize) -> (r: ParseBody)
    requires
        tokens_wf(source@, views_of(tokens@)),
        start <= tokens@.len(),
    ensures
        ({
            let toks = views_of(tokens@);
            let e = spec_body_end(toks, start as int);
            &&& r.consumed_tokens == e - start
            &&& start + r.consumed_tokens <= toks.len()
            &&& r.value@ == span_text(source@, toks, start as int, e)
        }),
{
    let ghost toks = views_of(tokens@);
    proof {
        lemma_views_of_index(tokens@);
        lemma_spec_body_end(toks, start as int);
    }
    let mut k: usize = start;
    while k < tokens.len() && !is_block_header(tokens, k)
        invariant
            start <= k <= toks.len(),
            toks == views_of(tokens@),
            spec_body_end(toks, start as int) == spec_body_end(toks, k as int),
        decreases toks.len() - k,
    {
        k = k + 1;
    }
    let value = consolidate_tokens_into_string(source, tokens, start, k);
    ParseBody { value, consumed_tokens: k - start }
}

/// Outcome of one block parse: the slot value of the block (or of the
/// garbage entry standing in for it), the handles of the diagnostics its
/// attribute scan stored, and how many tokens were consumed.
struct ParseBlock {
    value: AstNode,
    garbage: Vec<AstNode>,
    consumed_tokens: usize,
}

/// Parses one block whose opening token stands at `start`: a header
/// `[ Text ]`, the attributes, and the body up to the next header. With
/// fewer than three remaining tokens, or a header that does not match, the
/// whole remaining token window collapses into a single garbage entry.
/// The block and its diagnostics are stored in the arenas; the slot
/// sequence is left untouched for the caller to fill.
fn parse_block(source: &str, tokens: &Vec<Token>, start: usize, ast: &mut AST) -> (r: ParseBlock)
    requires
        tokens_wf(source@, views_of(tokens@)),
        start < tokens@.len(),
    ensures
        ({
            let toks = views_of(tokens@);
            let ents = spec_block_entries(source@, toks, start as int);
            &&& final(ast).spec_slots() == old(ast).spec_slots()
            &&& old(ast).spec_nodes().len() <= final(ast).spec_nodes().len()
            &&& forall|j: int|
                0 <= j < old(ast).spec_nodes().len() ==> final(ast).spec_nodes()[j] == old(
                    ast,
                ).spec_nodes()[j]
            &&& old(ast).spec_garbages().len() <= final(ast).spec_garbages().len()
            &&& forall|j: int|
                0 <= j < old(ast).spec_garbages().len() ==> final(ast).spec_garbages()[j] == old(
                    ast,
                ).spec_garbages()[j]
            &&& r.consumed_tokens == spec_block_consumed(toks, start as int)
            &&& start + r.consumed_tokens <= toks.len()
            &&& 1 <= r.consumed_tokens
            &&& ents.len() == 1 + r.garbage@.len()
            &&& handle_ok(*final(ast), r.value)
            &&& final(ast).entry_of(r.value) == ents[0]
            &&& forall|j: int|
                0 <= j < r.garbage@.len() ==> handle_ok(*final(ast), #[trigger] r.garbage@[j])
                    && r.garbage@[j] is Garbage && final(ast).entry_of(r.garbage@[j]) == ents[j
                    + 1]
        }),
{
    let ghost toks = views_of(tokens@);
    proof {
        lemma_views_of_index(tokens@);
    }
    let remaining: usize = tokens.len() - start;
    if remaining < 3 {
        let text = consolidate_tokens_into_string(source, tokens, start, tokens.len());
        let value = ast.push_garbage(Garbage { text, message: "too few tokens" });
        return ParseBlock { value, garbage: Vec::new(), consumed_tokens: remaining };
    }
    if is_block_header(tokens, start) {
        let kind = tokens[start + 1].raw_text().to_owned();
        let attrs = parse_attributes(ast, tokens, start + 3);
        let body_start: usize = start + 3 + attrs.consumed_tokens;
        let body = parse_body(source, tokens, body_start);
        let ghost garbages1 = ast.spec_garbages();
        let value = ast.push_node(
            Node { kind, attributes: attrs.attributes, body: body.value },
        );
        proof {
            let ents = spec_block_entries(source@, toks, start as int);
            let sa = spec_attributes(toks, start as int + 3);
            lemma_spec_attributes_bounds(toks, start as int + 3);
            lemma_spec_body_end(toks, start as int + 3 + sa.0);
            assert(attrs.garbage@.len() == sa.2.len());
            assert(ents[0] == SpecEntry::Block(
                SpecNode {
                    kind: toks[start as int + 1].text,
                    attributes: sa.1,
                    body: span_text(
                        source@,
                        toks,
                        start as int + 3 + sa.0,
                        spec_body_end(toks, start as int + 3 + sa.0),
                    ),
                },
            ));
            assert(final(ast).entry_of(value) == ents[0]);
            assert forall|j: int| 0 <= j < attrs.garbage@.len() implies handle_ok(
                *ast,
                #[trigger] attrs.garbage@[j],
            ) && attrs.garbage@[j] is Garbage && ast.entry_of(attrs.garbage@[j]) == ents[j
                + 1] by {
                assert(ents[j + 1] == sa.2.map_values(
                    |g: SpecGarbage| SpecEntry::Garbage(g),
                )[j]);
            }
        }
        ParseBlock {
            value,
            garbage: attrs.garbage,
            consumed_tokens: 3 + attrs.consumed_tokens + body.consumed_tokens,
        }
    } else {
        let text = consolidate_tokens_into_string(source, tokens, start, tokens.len());
        let value = ast.push_garbage(Garbage { text, message: "unexpected tokens" });
        ParseBlock { value, garbage: Vec::new(), consumed_tokens: remaining }
    }
}

/// Arena growth does not change the document: with the slots unchanged and
/// both arenas only extended, every entry reads the same.
proof fn lemma_entries_arena_extend(a: AST, b: AST)
    requires
        a.wf(),
        b.spec_slots() == a.spec_slots(),
        a.spec_nodes().len() <= b.spec_nodes().len(),
        forall|j: int| 0 <= j < a.spec_nodes().len() ==> b.spec_nodes()[j] == a.spec_nodes()[j],
        a.spec_garbages().len() <= b.spec_garbages().len(),
        forall|j: int|
            0 <= j < a.spec_garbages().len() ==> b.spec_garbages()[j] == a.spec_garbages()[j],
    ensures
        b.entries() == a.entries(),
        b.wf(),
        a.complete() ==> b.complete(),
{
    assert forall|i: int| 0 <= i < b.spec_slots().len() implies b.slot_wf(
        #[trigger] b.spec_slots()[i],
    ) && b.entry_of(b.spec_slots()[i]) == a.entry_of(a.spec_slots()[i]) by {
        assert(a.slot_wf(a.spec_slots()[i]));
    }
    assert(b.entries() =~= a.entries());
}

/// Reserving a slot appends one reserved entry to the document.
proof fn lemma_entries_push_reserve(a: AST, b: AST)
    requires
        b.spec_slots() == a.spec_slots().push(AstNode::Reserve),
        b.spec_nodes() == a.spec_nodes(),
        b.spec_garbages() == a.spec_garbages(),
    ensures
        b.entries() == a.entries().push(SpecEntry::Reserved),
        a.wf() ==> b.wf(),
{
    assert forall|i: int| 0 <= i < a.spec_slots().len() implies #[trigger] b.entry_of(
        b.spec_slots()[i],
    ) == a.entry_of(a.spec_slots()[i]) by {}
    assert(b.entries() =~= a.entries().push(SpecEntry::Reserved));
    if a.wf() {
        assert forall|i: int| 0 <= i < b.spec_slots().len() implies b.slot_wf(
            #[trigger] b.spec_slots()[i],
        ) by {
            if i < a.spec_slots().len() {
                assert(a.slot_wf(a.spec_slots()[i]));
            }
        }
    }
}

/// Filling the last, reserved slot with a finished entry turns the
/// document's last entry into that entry.
proof fn lemma_entries_fill_last(a: AST, b: AST, h: AstNode)
    requires
        a.wf(),
        handle_ok(a, h),
        a.spec_slots().len() >= 1,
        b.spec_slots() == a.spec_slots().update(a.spec_slots().len() - 1, h),
        b.spec_nodes() == a.spec_nodes(),
        b.spec_garbages() == a.spec_garbages(),
    ensures
        b.entries() == a.entries().update(a.entries().len() - 1, a.entry_of(h)),
        b.wf(),
        (forall|i: int|
            0 <= i < a.spec_slots().len() - 1 ==> !((#[trigger] a.spec_slots()[i]) is Reserve))
            ==> b.complete(),
{
    assert forall|i: int| 0 <= i < b.spec_slots().len() implies b.slot_wf(
        #[trigger] b.spec_slots()[i],
    ) && b.entry_of(b.spec_slots()[i]) == a.entries().update(
        a.entries().len() - 1,
        a.entry_of(h),
    )[i] by {
        if i < a.spec_slots().len() - 1 {
            assert(a.slot_wf(a.spec_slots()[i]));
        }
    }
    assert(b.entries() =~= a.entries().update(a.entries().len() - 1, a.entry_of(h)));
}

/// Consumes the token sequence once, left to right, and produces the
/// parsed document: an ordered sequence of slots, each holding exactly one
/// block or diagnostic entry, in the order the entries were encountered in
/// the source.
pub fn parse(source: &str, tokens: &Vec<Token>) -> (ast: AST)
    requires
        tokens_wf(source@, views_of(tokens@)),
    ensures
        ast.entries() == spec_parse(source@, views_of(tokens@)),
        ast.complete(),
{
    let ghost toks = views_of(tokens@);
    proof {
        lemma_views_of_index(tokens@);
    }
    let mut ast = AST::new();
    let n: usize = tokens.len();
    let mut i: usize = 0;
    while i < n
        invariant
            n == toks.len(),
            toks == views_of(tokens@),
            tokens_wf(source@, toks),
            i <= n,
            ast.complete(),
            spec_parse(source@, toks) == ast.entries() + spec_parse_from(source@, toks, i as int),
        decreases n - i,
    {
        let ghost entries0 = ast.entries();
        let ghost i0 = i as int;
        let kd = tokens[i].kind();
        if kd == TokenKind::OpenBracket {
            let ghost step = spec_block_entries(source@, toks, i0);
            proof {
                lemma_spec_block_consumed(toks, i0);
            }
            let ghost ast0 = ast;
            let slot = ast.reserve_slot();
            let ghost ast1 = ast;
            proof {
                lemma_entries_push_reserve(ast0, ast1);
            }
            let block = parse_block(source, tokens, i, &mut ast);
            let ghost ast2 = ast;
            proof {
                lemma_entries_arena_extend(ast1, ast2);
            }
            ast.fill_slot(slot, block.value);
            let ghost ast3 = ast;
            proof {
                lemma_entries_fill_last(ast2, ast3, block.value);
                assert(ast3.entries() =~= entries0.push(step[0]));
                assert(entries0.push(step[0]) =~= entries0 + step.subrange(0, 1));
            }
            let mut g: usize = 0;
            let ghost handles = block.garbage@;
            while g < block.garbage.len()
                invariant
                    g <= handles.len(),
                    handles == block.garbage@,
                    step.len() == 1 + handles.len(),
                    ast.spec_nodes() == ast3.spec_nodes(),
                    ast.spec_garbages() == ast3.spec_garbages(),
                    forall|j: int|
                        0 <= j < handles.len() ==> handle_ok(ast, #[trigger] handles[j])
                            && handles[j] is Garbage && ast.entry_of(handles[j]) == step[j + 1],
                    ast.complete(),
                    ast.entries() == entries0 + step.subrange(0, 1 + g as int),
                decreases handles.len() - g,
            {
                let ghost astg0 = ast;
                let slot2 = ast.reserve_slot();
                let ghost astg1 = ast;
                proof {
                    lemma_entries_push_reserve(astg0, astg1);
                }
                ast.fill_slot(slot2, block.garbage[g]);
                proof {
                    lemma_entries_fill_last(astg1, ast, handles[g as int]);
                    assert(ast.entries() =~= (entries0 + step.subrange(0, 1 + g as int)).push(
                        step[1 + g as int],
                    ));
                    assert((entries0 + step.subrange(0, 1 + g as int)).push(step[1 + g as int])
                        =~= entries0 + step.subrange(0, 2 + g as int));
                }
                g = g + 1;
            }
            proof {
                assert(step.subrange(0, step.len() as int) =~= step);
                assert(spec_parse_from(source@, toks, i0) == step + spec_parse_from(
                    source@,
                    toks,
                    i0 + spec_block_consumed(toks, i0),
                ));
                assert(entries0 + (step + spec_parse_from(
                    source@,
                    toks,
                    i0 + spec_block_consumed(toks, i0),
                )) =~= (entries0 + step) + spec_parse_from(
                    source@,
                    toks,
                    i0 + spec_block_consumed(toks, i0),
                ));
            }
            i = i + block.consumed_tokens;
        } else {
            let message: &'static str = if kd == TokenKind::Number {
                "unexpected number"
            } else if kd == TokenKind::Text {
                "unexpected text"
            } else if kd == TokenKind::Quoted {
                "unexpected quoted"
            } else if kd == TokenKind::CloseBracket {
                "unexpected close bracket"
            } else if kd == TokenKind::Colon {
                "unexpected colon"
            } else {
                "unexpected equal sign"
            };
            proof {
                assert(message@ == stray_message(toks[i0].kind));
            }
            let text = tokens[i].text();
            let ghost ast0 = ast;
            let value = ast.push_garbage(Garbage { text, message });
            let ghost ast1 = ast;
            proof {
                lemma_entries_arena_extend(ast0, ast1);
            }
            let slot = ast.reserve_slot();
            let ghost ast2 = ast;
            proof {
                lemma_entries_push_reserve(ast1, ast2);
            }
            ast.fill_slot(slot, value);
            proof {
                let ghost e = SpecEntry::Garbage(
                    SpecGarbage { text: token_text(toks[i0]), message: stray_message(toks[i0].kind) },
                );
                lemma_entries_fill_last(ast2, ast, value);
                assert(ast2.entry_of(value) == e);
                assert(ast.entries() =~= entries0.push(e));
                assert(spec_parse_from(source@, toks, i0) == seq![e] + spec_parse_from(
                    source@,
                    toks,
                    i0 + 1,
                ));
                assert(entries0 + (seq![e] + spec_parse_from(source@, toks, i0 + 1))
                    =~= entries0.push(e) + spec_parse_from(source@, toks, i0 + 1));
            }
            i = i + 1;
        }
    }
    proof {
        assert(spec_parse_from(source@, toks, n as int) == Seq::<SpecEntry>::empty());
        assert(ast.entries() + Seq::<SpecEntry>::empty() =~= ast.entries());
    }
    ast
}

} // verus!
