//! One import relationship between two modules.

use crate::modpath::{dotted, ModulePath};
use crate::text::{decimal, push_decimal};
use vstd::prelude::*;

verus! {

/// An import edge: the module that imports, the module it imports, and the
/// line of the statement (1-based; 0 where the position is not known).
#[derive(Debug, PartialEq, Eq)]
pub struct ImportLine {
    pub from_module: ModulePath,
    pub target_module: ModulePath,
    pub import_line: u32,
}

/// An edge as plain values.
pub struct EdgeView {
    pub from: Seq<Seq<char>>,
    pub target: Seq<Seq<char>>,
    pub line: u32,
}

impl View for ImportLine {
    type V = EdgeView;

    open spec fn view(&self) -> EdgeView {
        EdgeView { from: self.from_module@, target: self.target_module@, line: self.import_line }
    }
}

/// The views of a list of edges, item by item.
pub open spec fn edge_views(edges: Seq<ImportLine>) -> Seq<EdgeView> {
    Seq::new(edges.len(), |i: int| edges[i]@)
}

/// How a module is named in a message: its dotted text, or a placeholder
/// where the path is empty.
pub open spec fn shown_module(segments: Seq<Seq<char>>) -> Seq<char> {
    if segments.len() == 0 {
        "<unknown>"@
    } else {
        dotted(segments)
    }
}

/// The one-line text of an edge.
pub open spec fn edge_text(e: EdgeView) -> Seq<char> {
    "line "@ + decimal(e.line as nat) + ": "@ + shown_module(e.from) + " -> "@ + shown_module(
        e.target,
    )
}

/// The dotted text of a module, or the placeholder for the empty path.
pub fn show_module(module: &ModulePath) -> (r: String)
    ensures
        r@ == shown_module(module@),
{
    if module.is_empty() {
        "<unknown>".to_owned()
    } else {
        module.to_dotted()
    }
}

impl Clone for ImportLine {
    fn clone(&self) -> (r: Self)
        ensures
            r@ == self@,
    {
        ImportLine {
            from_module: self.from_module.clone(),
            target_module: self.target_module.clone(),
            import_line: self.import_line,
        }
    }
}

impl ImportLine {
    /// The edge as one line of text: `line N: from -> target`.
    pub fn to_string(&self) -> (r: String)
        ensures
            r@ == edge_text(self@),
    {
        let mut out = "line ".to_owned();
        push_decimal(&mut out, self.import_line);
        out.append(": ");
        out.append(show_module(&self.from_module).as_str());
        out.append(" -> ");
        out.append(show_module(&self.target_module).as_str());
        out
    }
}

} // verus!
