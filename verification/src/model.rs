//! Plain vocabulary of the document model: modes, anchors, shape kinds,
//! note kinds, input sample kinds, and the per-file meta values.
use vstd::prelude::*;

verus! {

/// Top-level rendering mode for a `.writee` file.
#[derive(Debug, Clone, Copy, PartialEq, Eq, Structural)]
pub enum DocumentMode {
    Canvas,
    Markdown,
}

pub open spec fn mode_str(m: DocumentMode) -> Seq<char> {
    match m {
        DocumentMode::Canvas => "canvas"@,
        DocumentMode::Markdown => "markdown"@,
    }
}

impl DocumentMode {
    /// Parse the stored meta value; anything but `"markdown"` is a canvas.
    pub fn from_str(s: &str) -> (m: DocumentMode)
        ensures
            m == (if s@ == "markdown"@ { DocumentMode::Markdown } else { DocumentMode::Canvas }),
    {
        if crate::strings::str_eq(s, "markdown") {
            DocumentMode::Markdown
        } else {
            DocumentMode::Canvas
        }
    }

    /// The meta value stored for a mode.
    pub fn as_str(self) -> (s: &'static str)
        ensures
            s@ == mode_str(self),
    {
        match self {
            DocumentMode::Canvas => "canvas",
            DocumentMode::Markdown => "markdown",
        }
    }
}

/// A stored mode reads back as itself.
pub proof fn law_mode_round_trip(m: DocumentMode)
    ensures
        (if mode_str(m) == "markdown"@ { DocumentMode::Markdown } else { DocumentMode::Canvas })
            == m,
{
    reveal_strlit("markdown");
    reveal_strlit("canvas");
    if m == DocumentMode::Canvas {
        assert(mode_str(m).len() != "markdown"@.len());
    }
}

/// The mode of a file given its stored meta value (none stored: canvas).
pub fn mode_from_meta(value: Option<&str>) -> (m: DocumentMode)
    ensures
        m == (match value {
            Some(v) => if v@ == "markdown"@ { DocumentMode::Markdown } else { DocumentMode::Canvas },
            None => DocumentMode::Canvas,
        }),
{
    match value {
        Some(v) => DocumentMode::from_str(v),
        None => DocumentMode::Canvas,
    }
}

/// Whether note creation is locked, given the stored meta value: only the
/// exact value `"true"` locks.
pub fn locked_from_meta(value: Option<&str>) -> (locked: bool)
    ensures
        locked == (match value {
            Some(v) => v@ == "true"@,
            None => false,
        }),
{
    match value {
        Some(v) => crate::strings::str_eq(v, "true"),
        None => false,
    }
}

/// The meta value stored for the locked-notes flag.
pub fn locked_meta_value(locked: bool) -> (s: &'static str)
    ensures
        s@ == (if locked { "true"@ } else { "false"@ }),
{
    if locked {
        "true"
    } else {
        "false"
    }
}

/// A stored locked-notes flag reads back as itself.
pub proof fn law_locked_round_trip(locked: bool)
    ensures
        ((if locked { "true"@ } else { "false"@ }) == "true"@) == locked,
{
    reveal_strlit("true");
    reveal_strlit("false");
    if !locked {
        assert("false"@.len() != "true"@.len());
    }
}

/// One of nine canonical anchor points on an object's bounding box.
#[derive(Debug, Clone, Copy, PartialEq, Eq, Structural)]
pub enum Anchor {
    Center,
    N,
    S,
    E,
    W,
    NE,
    NW,
    SE,
    SW,
}

pub open spec fn all_anchors() -> Seq<Anchor> {
    seq![
        Anchor::Center,
        Anchor::N,
        Anchor::S,
        Anchor::E,
        Anchor::W,
        Anchor::NE,
        Anchor::NW,
        Anchor::SE,
        Anchor::SW,
    ]
}

impl Anchor {
    pub fn all() -> (r: [Anchor; 9])
        ensures
            r@ == all_anchors(),
    {
        let r = [
            Anchor::Center,
            Anchor::N,
            Anchor::S,
            Anchor::E,
            Anchor::W,
            Anchor::NE,
            Anchor::NW,
            Anchor::SE,
            Anchor::SW,
        ];
        assert(r@ =~= all_anchors());
        r
    }
}

/// One end of a link: the object it is attached to and where.
#[derive(Debug, Clone, Copy, PartialEq, Eq, Structural)]
pub struct LinkEnd {
    pub object_id: u64,
    pub anchor: Anchor,
}

#[derive(Debug, Clone, Copy, PartialEq, Eq, Structural)]
pub enum ShapeKind {
    Rectangle,
    Ellipse,
    Line,
}

/// How a linked note's target file opens.
#[derive(Debug, Clone, Copy, PartialEq, Eq, Structural)]
pub enum NoteMode {
    Canvas,
    Markdown,
}

impl Default for NoteMode {
    fn default() -> (m: NoteMode)
        ensures
            m == NoteMode::Canvas,
    {
        NoteMode::Canvas
    }
}

/// One row inside an index card body.
#[derive(Debug, Clone, PartialEq, Eq)]
pub enum IndexEntry {
    /// A workspace-relative `.writee` file name.
    File { file: String },
    /// A bold label that groups files.
    Heading { text: String },
}

/// Kind of pointing device behind an input sample.
#[derive(Debug, Clone, Copy, PartialEq, Eq, Structural)]
pub enum ToolType {
    Mouse,
    Pen,
    Finger,
    Eraser,
    Unknown,
}

/// Phase of a pointer gesture.
#[derive(Debug, Clone, Copy, PartialEq, Eq, Structural)]
pub enum SamplePhase {
    Begin,
    Move,
    End,
    Cancel,
}

/// Why the renderer could not start.
#[derive(Debug, Clone, PartialEq, Eq)]
pub enum RendererError {
    NoAdapter,
    Surface(String),
    Device(String),
}

/// What kind of canvas object a stored row holds.
#[derive(Debug, Clone, Copy, PartialEq, Eq, Structural)]
pub enum ObjectKind {
    Stroke,
    Arrow,
    TextBox,
    Shape,
    SubNote,
    Link,
    Image,
}

/// The number a kind is stored under.
pub open spec fn kind_code(k: ObjectKind) -> i64 {
    match k {
        ObjectKind::Stroke => 0,
        ObjectKind::Arrow => 1,
        ObjectKind::TextBox => 2,
        ObjectKind::Shape => 3,
        ObjectKind::SubNote => 4,
        ObjectKind::Link => 5,
        ObjectKind::Image => 6,
    }
}

impl ObjectKind {
    pub fn code(self) -> (c: i64)
        ensures
            c == kind_code(self),
    {
        match self {
            ObjectKind::Stroke => 0,
            ObjectKind::Arrow => 1,
            ObjectKind::TextBox => 2,
            ObjectKind::Shape => 3,
            ObjectKind::SubNote => 4,
            ObjectKind::Link => 5,
            ObjectKind::Image => 6,
        }
    }

    /// The kind stored under `c`; `None` for an unknown number (such rows
    /// are skipped on load).
    pub fn from_code(c: i64) -> (k: Option<ObjectKind>)
        ensures
            match k {
                Some(k) => kind_code(k) == c,
                None => !(0 <= c <= 6),
            },
    {
        if c == 0 {
            Some(ObjectKind::Stroke)
        } else if c == 1 {
            Some(ObjectKind::Arrow)
        } else if c == 2 {
            Some(ObjectKind::TextBox)
        } else if c == 3 {
            Some(ObjectKind::Shape)
        } else if c == 4 {
            Some(ObjectKind::SubNote)
        } else if c == 5 {
            Some(ObjectKind::Link)
        } else if c == 6 {
            Some(ObjectKind::Image)
        } else {
            None
        }
    }
}

/// The short name of each kind of object.
pub open spec fn kind_name_spec(k: ObjectKind) -> Seq<char> {
    match k {
        ObjectKind::Stroke => "stroke"@,
        ObjectKind::Arrow => "arrow"@,
        ObjectKind::TextBox => "text"@,
        ObjectKind::Shape => "shape"@,
        ObjectKind::SubNote => "note"@,
        ObjectKind::Link => "link"@,
        ObjectKind::Image => "image"@,
    }
}

impl ObjectKind {
    pub fn kind_name(self) -> (s: &'static str)
        ensures
            s@ == kind_name_spec(self),
    {
        match self {
            ObjectKind::Stroke => "stroke",
            ObjectKind::Arrow => "arrow",
            ObjectKind::TextBox => "text",
            ObjectKind::Shape => "shape",
            ObjectKind::SubNote => "note",
            ObjectKind::Link => "link",
            ObjectKind::Image => "image",
        }
    }

    /// Whether a link may end on an object of this kind: links cannot be
    /// anchored to, everything else can.
    pub fn is_anchorable(self) -> (b: bool)
        ensures
            b == (self != ObjectKind::Link),
    {
        match self {
            ObjectKind::Link => false,
            _ => true,
        }
    }
}

/// A stored kind reads back as itself, and no two kinds share a number.
pub proof fn law_kind_code_round_trip(k: ObjectKind, j: ObjectKind)
    ensures
        0 <= kind_code(k) <= 6,
        kind_code(k) == kind_code(j) ==> k == j,
{
}

/// Meta key of a document's title.
pub const META_KEY_TITLE: &'static str = "title";

/// Meta key of a document's mode (`canvas` or `markdown`).
pub const META_KEY_MODE: &'static str = "mode";

/// Meta key of the flag that refuses new notes on a document.
pub const META_KEY_LOCKED_NOTES: &'static str = "locked_notes";

} // verus!
