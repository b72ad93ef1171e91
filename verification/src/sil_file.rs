//! A whole `sil` document run once through the pipeline.

use vstd::prelude::*;

use crate::lex::lex;
use crate::lex::spec_lex;
use crate::parse::parse;
use crate::parse::spec_parse;
use crate::typecheck::all_blocks_are_titles;
use crate::typecheck::typecheck;

verus! {

/// A document whose text has been lexed, parsed and validated once.
pub struct SilFile {
    pub content: String,
}

impl SilFile {
    /// Runs the whole pipeline over the document text and keeps the text.
    /// Validation is defined only for documents whose blocks all carry the
    /// `title` kind (see [`typecheck`]), so only such documents may arrive
    /// here.
    pub fn from(content: &str) -> (r: Option<SilFile>)
        requires
            all_blocks_are_titles(spec_parse(content@, spec_lex(content@))),
        ensures
            r matches Some(f) && f.content@ == content@,
    {
        let tokens = lex(content);
        let ast = parse(content, &tokens);
        let _typechecked_ast = typecheck(&ast);
        Some(SilFile { content: content.to_owned() })
    }
}

} // verus!
