//! The displayed slide and its recompute trigger.
//!
//! A `Display` owns the document text and the slide computed from it. The
//! whole pipeline -- lex, parse, resolve -- re-runs from scratch whenever
//! the text changes; nothing of a previous run is reused, and the layer
//! order always matches the source order of the parsed entries.

use vstd::prelude::*;

use crate::lex::Token;
use crate::lex::lex;
use crate::lex::spec_lex;
use crate::parse::AST;
use crate::parse::parse;
use crate::parse::spec_parse;
use crate::slide::Layers;
use crate::slide::SpecLayer;
use crate::slide::spec_layers;

verus! {

/// The layers the whole pipeline yields for a document text: the text is
/// lexed, the tokens parsed, and the parsed entries resolved, in that
/// order.
pub open spec fn spec_pipeline(src: Seq<char>) -> Seq<SpecLayer> {
    spec_layers(spec_parse(src, spec_lex(src)))
}

/// The pipeline is a function of the document text alone, so re-running
/// it on unchanged text yields an element-wise equal layer sequence.
pub proof fn lemma_pipeline_idempotent(first: Seq<char>, second: Seq<char>)
    requires
        first == second,
    ensures
        spec_pipeline(first) == spec_pipeline(second),
{
}

/// One computed slide: the tokens, the parsed document and the layers of
/// one pipeline run, all derived from the same text.
pub struct Slide {
    tokens: Vec<Token>,
    ast: AST,
    layers: Layers,
}

/// The document text under display, together with the slide computed from
/// it by the last pipeline run, if one has run.
pub struct Display {
    pub content: String,
    pub slide: Option<Slide>,
}

impl Display {
    /// The layer models of the last pipeline run, if one has run.
    pub closed spec fn spec_slide_layers(&self) -> Option<Seq<SpecLayer>> {
        match self.slide {
            Some(s) => Some(s.layers.spec_view()),
            None => None,
        }
    }

    /// The computed layers of the last pipeline run, if one has run.
    pub fn layers(&self) -> (r: Option<&Layers>)
        ensures
            match r {
                Some(l) => self.spec_slide_layers() == Some(l.spec_view()),
                None => self.spec_slide_layers() is None,
            },
    {
        match &self.slide {
            Some(s) => Some(&s.layers),
            None => None,
        }
    }

    /// Recomputes the slide from the current content: the whole pipeline
    /// runs from scratch, and the layers are exactly those the pipeline
    /// yields for the text.
    pub fn update(&mut self)
        ensures
            final(self).content@ == old(self).content@,
            final(self).spec_slide_layers() == Some(spec_pipeline(old(self).content@)),
    {
        let tokens = lex(self.content.as_str());
        let ast = parse(self.content.as_str(), &tokens);
        let layers = Layers::from(&ast);
        self.slide = Some(Slide { tokens, ast, layers });
    }

    /// The recompute trigger: re-runs the pipeline exactly when the given
    /// text differs from the content of the last run, and otherwise
    /// leaves both the content and the slide untouched.
    pub fn update_if_needed(&mut self, content: &String)
        ensures
            old(self).content@ == content@ ==> final(self).content@ == old(self).content@
                && final(self).spec_slide_layers() == old(self).spec_slide_layers(),
            old(self).content@ != content@ ==> final(self).content@ == content@
                && final(self).spec_slide_layers() == Some(spec_pipeline(content@)),
    {
        if self.content != *content {
            self.content = content.clone();
            self.update();
        }
    }
}

impl Default for Display {
    /// A display holding placeholder text and no computed slide.
    fn default() -> (r: Self)
        ensures
            r.content@ == "Lorem ipsum dolor sit amet"@,
            r.spec_slide_layers() is None,
    {
        Self { content: String::from_str("Lorem ipsum dolor sit amet"), slide: None }
    }
}

} // verus!
