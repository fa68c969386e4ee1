//! Canvas tools and their names.
use vstd::prelude::*;
use crate::model::{Anchor, ObjectKind};

verus! {

#[derive(Debug, Clone, Copy, PartialEq, Eq, Structural)]
pub enum Tool {
    Pen,
    Highlighter,
    Eraser,
    Arrow,
    Text,
    Shape,
    Note,
    Index,
    Link,
    Select,
}

pub open spec fn tool_short_name(t: Tool) -> Seq<char> {
    match t {
        Tool::Pen => "pen"@,
        Tool::Highlighter => "highlight"@,
        Tool::Eraser => "eraser"@,
        Tool::Arrow => "arrow"@,
        Tool::Text => "text"@,
        Tool::Shape => "shape"@,
        Tool::Note => "note"@,
        Tool::Index => "index"@,
        Tool::Link => "link"@,
        Tool::Select => "select"@,
    }
}

pub open spec fn tool_label(t: Tool) -> Seq<char> {
    match t {
        Tool::Pen => "Pen (P)"@,
        Tool::Highlighter => "Highlight (H)"@,
        Tool::Eraser => "Eraser (E)"@,
        Tool::Arrow => "Arrow (A)"@,
        Tool::Text => "Text (T)"@,
        Tool::Shape => "Shape (R)"@,
        Tool::Note => "Note (N)"@,
        Tool::Index => "Index (I)"@,
        Tool::Link => "Link (L)"@,
        Tool::Select => "Select (S)"@,
    }
}

/// The toolbar's short button text.
pub open spec fn tool_button_label(t: Tool) -> Seq<char> {
    match t {
        Tool::Pen => "Pen"@,
        Tool::Highlighter => "Mark"@,
        Tool::Eraser => "Erase"@,
        Tool::Arrow => "Arrow"@,
        Tool::Shape => "Shape"@,
        Tool::Text => "Text"@,
        Tool::Note => "Note"@,
        Tool::Index => "Index"@,
        Tool::Link => "Link"@,
        Tool::Select => "Select"@,
    }
}

pub open spec fn drawing_tools_spec() -> Seq<Tool> {
    seq![Tool::Pen, Tool::Highlighter, Tool::Eraser]
}

pub open spec fn annotation_tools_spec() -> Seq<Tool> {
    seq![Tool::Arrow, Tool::Shape, Tool::Text, Tool::Note, Tool::Index, Tool::Link]
}

pub open spec fn selection_tools_spec() -> Seq<Tool> {
    seq![Tool::Select]
}

impl Tool {
    pub fn short_name(self) -> (s: &'static str)
        ensures
            s@ == tool_short_name(self),
    {
        match self {
            Tool::Pen => "pen",
            Tool::Highlighter => "highlight",
            Tool::Eraser => "eraser",
            Tool::Arrow => "arrow",
            Tool::Text => "text",
            Tool::Shape => "shape",
            Tool::Note => "note",
            Tool::Index => "index",
            Tool::Link => "link",
            Tool::Select => "select",
        }
    }

    pub fn label(self) -> (s: &'static str)
        ensures
            s@ == tool_label(self),
    {
        match self {
            Tool::Pen => "Pen (P)",
            Tool::Highlighter => "Highlight (H)",
            Tool::Eraser => "Eraser (E)",
            Tool::Arrow => "Arrow (A)",
            Tool::Text => "Text (T)",
            Tool::Shape => "Shape (R)",
            Tool::Note => "Note (N)",
            Tool::Index => "Index (I)",
            Tool::Link => "Link (L)",
            Tool::Select => "Select (S)",
        }
    }

    pub fn drawing_tools() -> (r: &'static [Tool])
        ensures
            r@ == drawing_tools_spec(),
    {
        let r: &'static [Tool] = &[Tool::Pen, Tool::Highlighter, Tool::Eraser];
        assert(r@ =~= drawing_tools_spec());
        r
    }

    pub fn annotation_tools() -> (r: &'static [Tool])
        ensures
            r@ == annotation_tools_spec(),
    {
        let r: &'static [Tool] = &[Tool::Arrow, Tool::Shape, Tool::Text, Tool::Note, Tool::Index, Tool::Link];
        assert(r@ =~= annotation_tools_spec());
        r
    }

    pub fn selection_tools() -> (r: &'static [Tool])
        ensures
            r@ == selection_tools_spec(),
    {
        let r: &'static [Tool] = &[Tool::Select];
        assert(r@ =~= selection_tools_spec());
        r
    }

    /// Every tool, in toolbar order.
    pub fn all() -> (r: [Tool; 10])
        ensures
            r@ == drawing_tools_spec() + annotation_tools_spec() + selection_tools_spec(),
    {
        let r = [
            Tool::Pen,
            Tool::Highlighter,
            Tool::Eraser,
            Tool::Arrow,
            Tool::Shape,
            Tool::Text,
            Tool::Note,
            Tool::Index,
            Tool::Link,
            Tool::Select,
        ];
        assert(r@ =~= drawing_tools_spec() + annotation_tools_spec() + selection_tools_spec());
        r
    }
}

/// The pointer shape shown while a tool is active.
#[derive(Debug, Clone, Copy, PartialEq, Eq, Structural)]
pub enum CursorShape {
    Default,
    Crosshair,
    Text,
    Copy,
    Alias,
}

pub open spec fn tool_cursor(t: Tool) -> CursorShape {
    match t {
        Tool::Pen | Tool::Highlighter | Tool::Eraser | Tool::Arrow | Tool::Shape => CursorShape::Crosshair,
        Tool::Text => CursorShape::Text,
        Tool::Note | Tool::Index => CursorShape::Copy,
        Tool::Link => CursorShape::Alias,
        Tool::Select => CursorShape::Default,
    }
}

impl Tool {
    /// Drawing tools aim with a crosshair, the text tool shows a text
    /// caret, note and index tools a copy pointer, the link tool an alias
    /// pointer and selection the default arrow.
    pub fn cursor_icon(self) -> (c: CursorShape)
        ensures
            c == tool_cursor(self),
    {
        match self {
            Tool::Pen | Tool::Highlighter => CursorShape::Crosshair,
            Tool::Eraser => CursorShape::Crosshair,
            Tool::Arrow | Tool::Shape => CursorShape::Crosshair,
            Tool::Text => CursorShape::Text,
            Tool::Note => CursorShape::Copy,
            Tool::Index => CursorShape::Copy,
            Tool::Link => CursorShape::Alias,
            Tool::Select => CursorShape::Default,
        }
    }
}

/// The pointer gesture state of the canvas tools. `P` is a world-space
/// point and `O` an object, both carried through untouched.
pub struct ToolState<P, O> {
    pub current: Option<Tool>,
    pub arrow_start: Option<P>,
    pub arrow_end: Option<P>,
    pub editing_text: Option<u64>,
    /// Inline note whose body is being typed into.
    pub editing_note: Option<u64>,
    /// Text of the box when its edit session began, for undo.
    pub edit_text_before: Option<String>,
    pub selected: Vec<u64>,
    pub drag_origin_world: Option<P>,
    /// Where the gesture began, to tell a click from a drag.
    pub gesture_origin_world: Option<P>,
    /// The gesture moved far enough to count as a drag.
    pub drag_active: bool,
    pub eraser_dragging: bool,
    /// Selected objects as they were before the drag began.
    pub drag_before: Vec<(u64, O)>,
    /// Marquee corners (start, current) while selecting by area.
    pub marquee: Option<(P, P)>,
    pub shape_start: Option<P>,
    pub shape_end: Option<P>,
    /// Link being drawn: source object, its anchor, source point, pointer.
    pub link_in_progress: Option<(u64, Anchor, P, P)>,
    /// A note pressed without dragging, to open on release.
    pub click_target_subnote: Option<u64>,
}

impl<P, O> ToolState<P, O> {
    /// No gesture in progress: nothing half-drawn, dragged or pending.
    pub open spec fn no_gesture(&self) -> bool {
        &&& self.arrow_start is None
        &&& self.arrow_end is None
        &&& self.drag_origin_world is None
        &&& self.gesture_origin_world is None
        &&& !self.drag_active
        &&& !self.eraser_dragging
        &&& self.drag_before@.len() == 0
        &&& self.marquee is None
        &&& self.shape_start is None
        &&& self.shape_end is None
        &&& self.link_in_progress is None
        &&& self.click_target_subnote is None
        &&& self.editing_note is None
    }

    /// Drop every in-progress gesture and the inline note edit; the current
    /// tool, the selection and a text box edit session stay.
    pub fn reset_transient(&mut self)
        ensures
            final(self).no_gesture(),
            final(self).current == old(self).current,
            final(self).editing_text == old(self).editing_text,
            final(self).edit_text_before == old(self).edit_text_before,
            final(self).selected@ == old(self).selected@,
    {
        self.arrow_start = None;
        self.arrow_end = None;
        self.drag_origin_world = None;
        self.gesture_origin_world = None;
        self.drag_active = false;
        self.eraser_dragging = false;
        self.drag_before.clear();
        self.marquee = None;
        self.shape_start = None;
        self.shape_end = None;
        self.link_in_progress = None;
        self.click_target_subnote = None;
        self.editing_note = None;
    }
}

/// The selection after pressing the select tool on object `hit` (or on
/// empty canvas): pressing a selected object keeps the selection (a drag
/// begins); another object joins it with a modifier held and replaces it
/// otherwise; empty canvas keeps it with a modifier and clears it without.
pub open spec fn pressed_selection(sel: Seq<u64>, hit: Option<u64>, multi: bool) -> Seq<u64> {
    match hit {
        Some(id) => if sel.contains(id) {
            sel
        } else if multi {
            sel.push(id)
        } else {
            seq![id]
        },
        None => if multi {
            sel
        } else {
            Seq::empty()
        },
    }
}

impl<P, O> ToolState<P, O> {
    /// Every field but the selection is the same in `self` and `other`.
    pub open spec fn same_but_selection(&self, other: &Self) -> bool {
        &&& self.current == other.current
        &&& self.arrow_start == other.arrow_start
        &&& self.arrow_end == other.arrow_end
        &&& self.editing_text == other.editing_text
        &&& self.editing_note == other.editing_note
        &&& self.edit_text_before == other.edit_text_before
        &&& self.drag_origin_world == other.drag_origin_world
        &&& self.gesture_origin_world == other.gesture_origin_world
        &&& self.drag_active == other.drag_active
        &&& self.eraser_dragging == other.eraser_dragging
        &&& self.drag_before@ == other.drag_before@
        &&& self.marquee == other.marquee
        &&& self.shape_start == other.shape_start
        &&& self.shape_end == other.shape_end
        &&& self.link_in_progress == other.link_in_progress
        &&& self.click_target_subnote == other.click_target_subnote
    }

    /// Press the select tool on object `hit` (or empty canvas); only the
    /// selection changes.
    pub fn press_select(&mut self, hit: Option<u64>, multi: bool)
        ensures
            final(self).selected@ == pressed_selection(old(self).selected@, hit, multi),
            final(self).same_but_selection(old(self)),
    {
        match hit {
            Some(id) => {
                let mut found = false;
                let mut i: usize = 0;
                while i < self.selected.len()
                    invariant
                        i <= self.selected@.len(),
                        self.selected@ == old(self).selected@,
                        self.same_but_selection(old(self)),
                        found <==> exists|k: int| 0 <= k < i && self.selected@[k] == id,
                    decreases self.selected@.len() - i,
                {
                    if self.selected[i] == id {
                        found = true;
                    }
                    i = i + 1;
                }
                if found {
                } else if multi {
                    self.selected.push(id);
                } else {
                    self.selected.clear();
                    self.selected.push(id);
                    assert(self.selected@ =~= seq![id]);
                }
            },
            None => {
                if !multi {
                    self.selected.clear();
                }
            },
        }
    }
}

/// The ids of the objects a link can end on (all but links), in order.
pub open spec fn anchorable_ids(objs: Seq<(u64, ObjectKind)>) -> Seq<u64>
    decreases objs.len(),
{
    if objs.len() == 0 {
        Seq::empty()
    } else {
        let rest = anchorable_ids(objs.drop_last());
        if objs.last().1 != ObjectKind::Link {
            rest.push(objs.last().0)
        } else {
            rest
        }
    }
}

impl<P, O> ToolState<P, O> {
    /// Select every object of the document but links; `objs` lists the
    /// document's objects by id and kind, in document order.
    pub fn select_all(&mut self, objs: &Vec<(u64, ObjectKind)>)
        ensures
            final(self).selected@ == anchorable_ids(objs@),
            final(self).same_but_selection(old(self)),
    {
        self.selected.clear();
        let mut i: usize = 0;
        while i < objs.len()
            invariant
                i <= objs@.len(),
                self.selected@ == anchorable_ids(objs@.take(i as int)),
                self.same_but_selection(old(self)),
            decreases objs@.len() - i,
        {
            assert(objs@.take(i + 1).drop_last() =~= objs@.take(i as int));
            let (id, kind) = objs[i];
            if kind.is_anchorable() {
                self.selected.push(id);
            }
            i = i + 1;
        }
        assert(objs@.take(objs@.len() as int) =~= objs@);
    }
}

/// Pressing again on an object just pressed leaves the selection as it
/// is, with or without a modifier.
pub proof fn law_press_twice_is_press_once(sel: Seq<u64>, id: u64, multi: bool, again: bool)
    ensures
        pressed_selection(pressed_selection(sel, Some(id), multi), Some(id), again)
            == pressed_selection(sel, Some(id), multi),
        pressed_selection(sel, Some(id), multi).contains(id),
{
    let once = pressed_selection(sel, Some(id), multi);
    if !sel.contains(id) {
        if multi {
            assert(once.last() == id);
        } else {
            assert(once[0] == id);
        }
    }
}

impl<P, O> Default for ToolState<P, O> {
    fn default() -> (t: ToolState<P, O>)
        ensures
            t.no_gesture(),
            t.current is None,
            t.editing_text is None,
            t.edit_text_before is None,
            t.selected@.len() == 0,
    {
        ToolState {
            current: None,
            arrow_start: None,
            arrow_end: None,
            editing_text: None,
            editing_note: None,
            edit_text_before: None,
            selected: Vec::new(),
            drag_origin_world: None,
            gesture_origin_world: None,
            drag_active: false,
            eraser_dragging: false,
            drag_before: Vec::new(),
            marquee: None,
            shape_start: None,
            shape_end: None,
            link_in_progress: None,
            click_target_subnote: None,
        }
    }
}

/// Short text for a toolbar button (the hover text carries the full label).
pub fn short_button_label(t: Tool) -> (s: &'static str)
    ensures
        s@ == tool_button_label(t),
{
    match t {
        Tool::Pen => "Pen",
        Tool::Highlighter => "Mark",
        Tool::Eraser => "Erase",
        Tool::Arrow => "Arrow",
        Tool::Shape => "Shape",
        Tool::Text => "Text",
        Tool::Note => "Note",
        Tool::Index => "Index",
        Tool::Link => "Link",
        Tool::Select => "Select",
    }
}

/// Every tool appears exactly once in the toolbar list.
pub proof fn law_every_tool_listed_once(t: Tool)
    ensures
        ({
            let all = drawing_tools_spec() + annotation_tools_spec() + selection_tools_spec();
            &&& all.contains(t)
            &&& forall|i: int, j: int| 0 <= i < j < all.len() ==> all[i] != all[j]
        }),
{
    let all = drawing_tools_spec() + annotation_tools_spec() + selection_tools_spec();
    assert(all =~= seq![
        Tool::Pen,
        Tool::Highlighter,
        Tool::Eraser,
        Tool::Arrow,
        Tool::Shape,
        Tool::Text,
        Tool::Note,
        Tool::Index,
        Tool::Link,
        Tool::Select,
    ]);
    let k: int = match t {
        Tool::Pen => 0,
        Tool::Highlighter => 1,
        Tool::Eraser => 2,
        Tool::Arrow => 3,
        Tool::Shape => 4,
        Tool::Text => 5,
        Tool::Note => 6,
        Tool::Index => 7,
        Tool::Link => 8,
        Tool::Select => 9,
    };
    assert(all[k] == t);
}

} // verus!
