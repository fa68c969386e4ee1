//! The static web export: the names it writes and the framing of its
//! document data.
use vstd::prelude::*;
use crate::model::ShapeKind;
use crate::strings::push_str;

verus! {

/// The files of the viewer, next to the document data.
pub const VIEWER_INDEX_HTML: &'static str = "index.html";
pub const VIEWER_APP_JS: &'static str = "app.js";
pub const VIEWER_APP_CSS: &'static str = "app.css";
pub const VIEWER_DOC_JS: &'static str = "doc.js";

/// The shape name the viewer understands.
pub open spec fn shape_name(k: ShapeKind) -> Seq<char> {
    match k {
        ShapeKind::Rectangle => "rect"@,
        ShapeKind::Ellipse => "ellipse"@,
        ShapeKind::Line => "line"@,
    }
}

pub fn export_shape_name(k: ShapeKind) -> (s: &'static str)
    ensures
        s@ == shape_name(k),
{
    match k {
        ShapeKind::Rectangle => "rect",
        ShapeKind::Ellipse => "ellipse",
        ShapeKind::Line => "line",
    }
}

/// The body of `doc.js`: the document's JSON assigned to a global, so the
/// viewer can load it from a `file://` page without `fetch`.
pub open spec fn doc_js_text(json: Seq<char>) -> Seq<char> {
    "window.WRITEE_DOC = "@ + json + ";\n"@
}

pub fn doc_js(json: &str) -> (s: String)
    ensures
        s@ == doc_js_text(json@),
{
    let mut s = String::from_str("window.WRITEE_DOC = ");
    push_str(&mut s, json);
    push_str(&mut s, ";\n");
    s
}

} // verus!
