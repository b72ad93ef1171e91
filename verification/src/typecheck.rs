//! Minimal per-kind validation of a parsed document.
//!
//! Validation is a registry mapping a kind tag to a validator; today only
//! the `title` kind is registered, and its validator accepts every title
//! block without recording anything. A block of any other kind has no
//! defined behaviour on this path and must not reach it: unrecognized
//! kinds are the layer resolver's business, which passes them through as
//! renderable placeholders.

use vstd::prelude::*;

use crate::parse::AST;
use crate::parse::AstNode;
use crate::parse::Node;
use crate::parse::SpecEntry;

verus! {

/// One validated block. The validator records nothing yet.
struct CheckedNode {}

/// The outcome of validating a document. Validation records nothing yet,
/// so the outcome holds no checked blocks.
pub struct CheckedAst {
    nodes: Vec<CheckedNode>,
}

impl CheckedAst {
    /// How many checked blocks the validation recorded.
    pub closed spec fn spec_node_count(&self) -> nat {
        self.nodes@.len()
    }
}

/// The registry of per-kind validators. Only `title` is registered.
struct Types {}

/// Every block of the document carries the `title` kind, the only kind
/// the validator registry knows.
pub open spec fn all_blocks_are_titles(entries: Seq<SpecEntry>) -> bool {
    forall|i: int|
        0 <= i < entries.len() ==> ((#[trigger] entries[i]) matches SpecEntry::Block(n) ==> n.kind
            == "title"@)
}

/// Validates every block of a complete document through the per-kind
/// registry. The registry knows only the `title` kind, so validation is
/// defined exactly for documents whose blocks all carry it.
pub fn typecheck(ast: &AST) -> (r: CheckedAst)
    requires
        ast.complete(),
        all_blocks_are_titles(ast.entries()),
    ensures
        r.spec_node_count() == 0,
{
    let types = Types {  };
    let slots = ast.view();
    let n: usize = slots.len();
    let mut i: usize = 0;
    while i < n
        invariant
            ast.complete(),
            all_blocks_are_titles(ast.entries()),
            n == ast.spec_slots().len(),
            slots@ == ast.spec_slots(),
            i <= n,
        decreases n - i,
    {
        proof {
            assert(ast.slot_wf(ast.spec_slots()[i as int]));
            assert(ast.entries()[i as int] == ast.entry_of(ast.spec_slots()[i as int]));
        }
        match slots[i] {
            AstNode::Node(id) => {
                let _checked_node = typecheck_node(&types, ast.get_node(id));
            },
            AstNode::Garbage(_) => {},
            AstNode::Reserve => {
                proof {
                    assert(false);
                }
            },
        }
        i = i + 1;
    }
    let checked = CheckedAst { nodes: Vec::new() };
    proof {
        assert(checked.spec_node_count() == 0);
    }
    checked
}

/// Dispatches one block to the validator its kind names. Only `title` is
/// registered, so only title blocks may arrive here.
fn typecheck_node(types: &Types, node: &Node) -> CheckedNode
    requires
        node@.kind == "title"@,
{
    typecheck_title(types, node)
}

/// The validator of the `title` kind: accepts every title block.
fn typecheck_title(_types: &Types, _node: &Node) -> CheckedNode {
    CheckedNode {  }
}

} // verus!
