//! Keyboard dispatch: which command a key press means in the current
//! editing context. The event loop performs the command and redraws when
//! asked to.
use vstd::prelude::*;
use crate::tool::Tool;

verus! {

/// The logical keys the dispatcher tells apart.
#[derive(Debug, Clone, Copy, PartialEq, Eq, Structural)]
pub enum NamedKey {
    Escape,
    Backspace,
    Delete,
    Enter,
    ArrowLeft,
    ArrowRight,
    ArrowUp,
    ArrowDown,
    Home,
    End,
    Other,
}

/// A logical key: a named key, or text the key produced.
#[derive(Debug, Clone)]
pub enum KeyInput {
    Named(NamedKey),
    Character(String),
    Other,
}

/// The physical keys that carry shortcuts.
#[derive(Debug, Clone, Copy, PartialEq, Eq, Structural)]
pub enum PhysicalCode {
    KeyA,
    KeyC,
    KeyD,
    KeyE,
    KeyF,
    KeyH,
    KeyI,
    KeyK,
    KeyN,
    KeyO,
    KeyP,
    KeyS,
    KeyT,
    KeyV,
    KeyY,
    KeyZ,
    Equal,
    NumpadAdd,
    Minus,
    NumpadSubtract,
    Digit0,
    Numpad0,
    Other,
}

/// Where the key lands.
#[derive(Debug, Clone, Copy, PartialEq, Eq, Structural)]
pub struct KeyContext {
    pub pressed: bool,
    pub ctrl: bool,
    pub shift: bool,
    pub palette_open: bool,
    pub editing_text: bool,
    pub editing_note: bool,
}

/// A caret movement inside the text being edited.
#[derive(Debug, Clone, Copy, PartialEq, Eq, Structural)]
pub enum CaretMove {
    Left,
    Right,
    Up,
    Down,
    Home,
    End,
}

/// What a key press asks the app to do.
#[derive(Debug, Clone, Copy, PartialEq, Eq, Structural)]
pub enum KeyCommand {
    Nothing,
    TogglePalette,
    FinishTextEdit,
    TextBackspace,
    TextNewline,
    TextMove(CaretMove),
    /// Insert each character of the key's text into the text box.
    TextInsert,
    FinishNoteEdit,
    NoteBackspace,
    NoteNewline,
    NoteMove(CaretMove),
    /// Insert each character of the key's text into the note.
    NoteInsert,
    Undo,
    Redo,
    SelectAll,
    CopySelection,
    Paste,
    DuplicateSelection,
    NewWhiteboard,
    NextFile,
    ExportWeb,
    FitToContent,
    ZoomIn,
    ZoomOut,
    ZoomReset,
    /// Drop the selection and any half-made gesture, and finish text editing.
    ClearSelection,
    DeleteSelection,
    SetTool(Tool),
}

/// A command and whether the window must be redrawn.
#[derive(Debug, Clone, Copy, PartialEq, Eq, Structural)]
pub struct KeyOutcome {
    pub command: KeyCommand,
    pub redraw: bool,
}

pub open spec fn act(c: KeyCommand) -> KeyOutcome {
    KeyOutcome { command: c, redraw: true }
}

pub open spec fn quiet(c: KeyCommand) -> KeyOutcome {
    KeyOutcome { command: c, redraw: false }
}

/// The text box's answer to a key, if it takes it.
pub open spec fn text_edit_command(key: KeyInput, ctrl: bool) -> Option<KeyCommand> {
    match key {
        KeyInput::Named(NamedKey::Escape) => Some(KeyCommand::FinishTextEdit),
        KeyInput::Named(NamedKey::Backspace) => Some(KeyCommand::TextBackspace),
        KeyInput::Named(NamedKey::Enter) => Some(KeyCommand::TextNewline),
        KeyInput::Named(NamedKey::ArrowLeft) => Some(KeyCommand::TextMove(CaretMove::Left)),
        KeyInput::Named(NamedKey::ArrowRight) => Some(KeyCommand::TextMove(CaretMove::Right)),
        KeyInput::Named(NamedKey::ArrowUp) => Some(KeyCommand::TextMove(CaretMove::Up)),
        KeyInput::Named(NamedKey::ArrowDown) => Some(KeyCommand::TextMove(CaretMove::Down)),
        KeyInput::Named(NamedKey::Home) => Some(KeyCommand::TextMove(CaretMove::Home)),
        KeyInput::Named(NamedKey::End) => Some(KeyCommand::TextMove(CaretMove::End)),
        KeyInput::Character(_) => if !ctrl { Some(KeyCommand::TextInsert) } else { None },
        _ => None,
    }
}

/// The inline note's answer to a key, if it takes it.
pub open spec fn note_edit_command(key: KeyInput, ctrl: bool) -> Option<KeyCommand> {
    match key {
        KeyInput::Named(NamedKey::Escape) => Some(KeyCommand::FinishNoteEdit),
        KeyInput::Named(NamedKey::Backspace) => Some(KeyCommand::NoteBackspace),
        KeyInput::Named(NamedKey::Enter) => Some(KeyCommand::NoteNewline),
        KeyInput::Named(NamedKey::ArrowLeft) => Some(KeyCommand::NoteMove(CaretMove::Left)),
        KeyInput::Named(NamedKey::ArrowRight) => Some(KeyCommand::NoteMove(CaretMove::Right)),
        KeyInput::Named(NamedKey::Home) => Some(KeyCommand::NoteMove(CaretMove::Home)),
        KeyInput::Named(NamedKey::End) => Some(KeyCommand::NoteMove(CaretMove::End)),
        KeyInput::Character(_) => if !ctrl { Some(KeyCommand::NoteInsert) } else { None },
        _ => None,
    }
}

/// The command bound to Ctrl plus a physical key.
pub open spec fn ctrl_command(code: PhysicalCode, shift: bool) -> KeyCommand {
    match code {
        PhysicalCode::KeyK => KeyCommand::TogglePalette,
        PhysicalCode::KeyZ => if shift { KeyCommand::Redo } else { KeyCommand::Undo },
        PhysicalCode::KeyY => KeyCommand::Redo,
        PhysicalCode::KeyA => KeyCommand::SelectAll,
        PhysicalCode::KeyC => KeyCommand::CopySelection,
        PhysicalCode::KeyV => KeyCommand::Paste,
        PhysicalCode::KeyD => KeyCommand::DuplicateSelection,
        PhysicalCode::KeyN => KeyCommand::NewWhiteboard,
        PhysicalCode::KeyO => KeyCommand::NextFile,
        PhysicalCode::KeyE => KeyCommand::ExportWeb,
        PhysicalCode::KeyF => KeyCommand::FitToContent,
        PhysicalCode::Equal => KeyCommand::ZoomIn,
        PhysicalCode::NumpadAdd => KeyCommand::ZoomIn,
        PhysicalCode::Minus => KeyCommand::ZoomOut,
        PhysicalCode::NumpadSubtract => KeyCommand::ZoomOut,
        PhysicalCode::Digit0 => KeyCommand::ZoomReset,
        PhysicalCode::Numpad0 => KeyCommand::ZoomReset,
        _ => KeyCommand::Nothing,
    }
}

/// The tool a bare letter key selects.
pub open spec fn tool_for_code(code: PhysicalCode) -> Option<Tool> {
    match code {
        PhysicalCode::KeyP => Some(Tool::Pen),
        PhysicalCode::KeyH => Some(Tool::Highlighter),
        PhysicalCode::KeyE => Some(Tool::Eraser),
        PhysicalCode::KeyA => Some(Tool::Arrow),
        PhysicalCode::KeyT => Some(Tool::Text),
        PhysicalCode::KeyI => Some(Tool::Index),
        PhysicalCode::KeyS => Some(Tool::Select),
        _ => None,
    }
}

/// What a key press means: releases do nothing; an open palette takes every
/// key but Ctrl+K; a text box being edited, then an inline note being
/// edited, get the first look; then the Ctrl shortcuts; then Escape,
/// Delete and Backspace; then the tool letters.
pub open spec fn key_outcome(ctx: KeyContext, key: KeyInput, code: PhysicalCode) -> KeyOutcome {
    if !ctx.pressed {
        quiet(KeyCommand::Nothing)
    } else if ctx.palette_open {
        if ctx.ctrl && code == PhysicalCode::KeyK {
            act(KeyCommand::TogglePalette)
        } else {
            quiet(KeyCommand::Nothing)
        }
    } else if ctx.editing_text && text_edit_command(key, ctx.ctrl) is Some {
        act(text_edit_command(key, ctx.ctrl)->0)
    } else if ctx.editing_note && note_edit_command(key, ctx.ctrl) is Some {
        act(note_edit_command(key, ctx.ctrl)->0)
    } else if ctx.ctrl {
        act(ctrl_command(code, ctx.shift))
    } else {
        match key {
            KeyInput::Named(NamedKey::Escape) => act(KeyCommand::ClearSelection),
            KeyInput::Named(NamedKey::Delete) => act(KeyCommand::DeleteSelection),
            KeyInput::Named(NamedKey::Backspace) => act(KeyCommand::DeleteSelection),
            _ => match tool_for_code(code) {
                Some(t) => quiet(KeyCommand::SetTool(t)),
                None => quiet(KeyCommand::Nothing),
            },
        }
    }
}

fn text_edit_key(key: &KeyInput, ctrl: bool) -> (c: Option<KeyCommand>)
    ensures
        c == text_edit_command(*key, ctrl),
{
    match key {
        KeyInput::Named(NamedKey::Escape) => Some(KeyCommand::FinishTextEdit),
        KeyInput::Named(NamedKey::Backspace) => Some(KeyCommand::TextBackspace),
        KeyInput::Named(NamedKey::Enter) => Some(KeyCommand::TextNewline),
        KeyInput::Named(NamedKey::ArrowLeft) => Some(KeyCommand::TextMove(CaretMove::Left)),
        KeyInput::Named(NamedKey::ArrowRight) => Some(KeyCommand::TextMove(CaretMove::Right)),
        KeyInput::Named(NamedKey::ArrowUp) => Some(KeyCommand::TextMove(CaretMove::Up)),
        KeyInput::Named(NamedKey::ArrowDown) => Some(KeyCommand::TextMove(CaretMove::Down)),
        KeyInput::Named(NamedKey::Home) => Some(KeyCommand::TextMove(CaretMove::Home)),
        KeyInput::Named(NamedKey::End) => Some(KeyCommand::TextMove(CaretMove::End)),
        KeyInput::Character(_) => if !ctrl { Some(KeyCommand::TextInsert) } else { None },
        _ => None,
    }
}

fn note_edit_key(key: &KeyInput, ctrl: bool) -> (c: Option<KeyCommand>)
    ensures
        c == note_edit_command(*key, ctrl),
{
    match key {
        KeyInput::Named(NamedKey::Escape) => Some(KeyCommand::FinishNoteEdit),
        KeyInput::Named(NamedKey::Backspace) => Some(KeyCommand::NoteBackspace),
        KeyInput::Named(NamedKey::Enter) => Some(KeyCommand::NoteNewline),
        KeyInput::Named(NamedKey::ArrowLeft) => Some(KeyCommand::NoteMove(CaretMove::Left)),
        KeyInput::Named(NamedKey::ArrowRight) => Some(KeyCommand::NoteMove(CaretMove::Right)),
        KeyInput::Named(NamedKey::Home) => Some(KeyCommand::NoteMove(CaretMove::Home)),
        KeyInput::Named(NamedKey::End) => Some(KeyCommand::NoteMove(CaretMove::End)),
        KeyInput::Character(_) => if !ctrl { Some(KeyCommand::NoteInsert) } else { None },
        _ => None,
    }
}

fn ctrl_shortcut(code: PhysicalCode, shift: bool) -> (c: KeyCommand)
    ensures
        c == ctrl_command(code, shift),
{
    match code {
        PhysicalCode::KeyK => KeyCommand::TogglePalette,
        PhysicalCode::KeyZ => if shift { KeyCommand::Redo } else { KeyCommand::Undo },
        PhysicalCode::KeyY => KeyCommand::Redo,
        PhysicalCode::KeyA => KeyCommand::SelectAll,
        PhysicalCode::KeyC => KeyCommand::CopySelection,
        PhysicalCode::KeyV => KeyCommand::Paste,
        PhysicalCode::KeyD => KeyCommand::DuplicateSelection,
        PhysicalCode::KeyN => KeyCommand::NewWhiteboard,
        PhysicalCode::KeyO => KeyCommand::NextFile,
        PhysicalCode::KeyE => KeyCommand::ExportWeb,
        PhysicalCode::KeyF => KeyCommand::FitToContent,
        PhysicalCode::Equal | PhysicalCode::NumpadAdd => KeyCommand::ZoomIn,
        PhysicalCode::Minus | PhysicalCode::NumpadSubtract => KeyCommand::ZoomOut,
        PhysicalCode::Digit0 | PhysicalCode::Numpad0 => KeyCommand::ZoomReset,
        _ => KeyCommand::Nothing,
    }
}

fn tool_key(code: PhysicalCode) -> (t: Option<Tool>)
    ensures
        t == tool_for_code(code),
{
    match code {
        PhysicalCode::KeyP => Some(Tool::Pen),
        PhysicalCode::KeyH => Some(Tool::Highlighter),
        PhysicalCode::KeyE => Some(Tool::Eraser),
        PhysicalCode::KeyA => Some(Tool::Arrow),
        PhysicalCode::KeyT => Some(Tool::Text),
        PhysicalCode::KeyI => Some(Tool::Index),
        PhysicalCode::KeyS => Some(Tool::Select),
        _ => None,
    }
}

/// Decides what a key event does.
pub fn handle_key(ctx: KeyContext, key: &KeyInput, code: PhysicalCode) -> (out: KeyOutcome)
    ensures
        out == key_outcome(ctx, *key, code),
{
    if !ctx.pressed {
        return KeyOutcome { command: KeyCommand::Nothing, redraw: false };
    }
    if ctx.palette_open {
        if ctx.ctrl && code == PhysicalCode::KeyK {
            return KeyOutcome { command: KeyCommand::TogglePalette, redraw: true };
        }
        return KeyOutcome { command: KeyCommand::Nothing, redraw: false };
    }
    if ctx.editing_text {
        if let Some(c) = text_edit_key(key, ctx.ctrl) {
            return KeyOutcome { command: c, redraw: true };
        }
    }
    if ctx.editing_note {
        if let Some(c) = note_edit_key(key, ctx.ctrl) {
            return KeyOutcome { command: c, redraw: true };
        }
    }
    if ctx.ctrl {
        return KeyOutcome { command: ctrl_shortcut(code, ctx.shift), redraw: true };
    }
    match key {
        KeyInput::Named(NamedKey::Escape) => {
            return KeyOutcome { command: KeyCommand::ClearSelection, redraw: true };
        },
        KeyInput::Named(NamedKey::Delete) | KeyInput::Named(NamedKey::Backspace) => {
            return KeyOutcome { command: KeyCommand::DeleteSelection, redraw: true };
        },
        _ => {},
    }
    match tool_key(code) {
        Some(t) => KeyOutcome { command: KeyCommand::SetTool(t), redraw: false },
        None => KeyOutcome { command: KeyCommand::Nothing, redraw: false },
    }
}

/// While the command palette is open, the only key that does anything is
/// Ctrl+K, which closes it again.
pub proof fn law_palette_owns_the_keyboard(ctx: KeyContext, key: KeyInput, code: PhysicalCode)
    requires
        ctx.palette_open,
    ensures
        key_outcome(ctx, key, code).command == KeyCommand::Nothing
            || (ctx.pressed && ctx.ctrl && code == PhysicalCode::KeyK
                && key_outcome(ctx, key, code).command == KeyCommand::TogglePalette),
{
}

/// Ctrl+K toggles the palette in every context where no text is being typed
/// into: the shortcut reaches the palette whether it is open or closed.
pub proof fn law_ctrl_k_toggles_palette(ctx: KeyContext, key: KeyInput)
    requires
        ctx.pressed,
        ctx.ctrl,
        !ctx.editing_text || text_edit_command(key, true) is None,
        !ctx.editing_note || note_edit_command(key, true) is None,
    ensures
        key_outcome(ctx, key, PhysicalCode::KeyK) == act(KeyCommand::TogglePalette),
{
}

/// Ctrl+Z undoes and Ctrl+Shift+Z or Ctrl+Y redo, outside the palette and
/// text entry.
pub proof fn law_undo_redo_shortcuts(ctx: KeyContext, key: KeyInput)
    requires
        ctx.pressed,
        ctx.ctrl,
        !ctx.palette_open,
        !ctx.editing_text,
        !ctx.editing_note,
    ensures
        key_outcome(ctx, key, PhysicalCode::KeyZ).command
            == (if ctx.shift { KeyCommand::Redo } else { KeyCommand::Undo }),
        key_outcome(ctx, key, PhysicalCode::KeyY).command == KeyCommand::Redo,
{
}

/// Outside the palette and text entry, a bare letter picks a tool: P pen,
/// H highlighter, E eraser, A arrow, T text, S select.
pub proof fn law_tool_letters(ctx: KeyContext, c: String)
    requires
        ctx.pressed,
        !ctx.ctrl,
        !ctx.palette_open,
        !ctx.editing_text,
        !ctx.editing_note,
    ensures
        key_outcome(ctx, KeyInput::Character(c), PhysicalCode::KeyP).command == KeyCommand::SetTool(Tool::Pen),
        key_outcome(ctx, KeyInput::Character(c), PhysicalCode::KeyH).command == KeyCommand::SetTool(Tool::Highlighter),
        key_outcome(ctx, KeyInput::Character(c), PhysicalCode::KeyE).command == KeyCommand::SetTool(Tool::Eraser),
        key_outcome(ctx, KeyInput::Character(c), PhysicalCode::KeyA).command == KeyCommand::SetTool(Tool::Arrow),
        key_outcome(ctx, KeyInput::Character(c), PhysicalCode::KeyT).command == KeyCommand::SetTool(Tool::Text),
        key_outcome(ctx, KeyInput::Character(c), PhysicalCode::KeyS).command == KeyCommand::SetTool(Tool::Select),
{
}

/// Escape ends a text edit while one is running, else clears the
/// selection; Delete and Backspace outside text entry delete the selection.
pub proof fn law_escape_and_delete(ctx: KeyContext, code: PhysicalCode)
    requires
        ctx.pressed,
        !ctx.ctrl,
        !ctx.palette_open,
    ensures
        ctx.editing_text ==> key_outcome(ctx, KeyInput::Named(NamedKey::Escape), code).command
            == KeyCommand::FinishTextEdit,
        !ctx.editing_text && !ctx.editing_note ==> {
            &&& key_outcome(ctx, KeyInput::Named(NamedKey::Escape), code).command == KeyCommand::ClearSelection
            &&& key_outcome(ctx, KeyInput::Named(NamedKey::Delete), code).command == KeyCommand::DeleteSelection
            &&& key_outcome(ctx, KeyInput::Named(NamedKey::Backspace), code).command == KeyCommand::DeleteSelection
        },
{
}

/// Outside the palette and text entry, each Ctrl shortcut does its own
/// thing and redraws: A selects all, C copies the selection, V pastes, D
/// duplicates the selection, N makes a new whiteboard, O opens the next
/// file, E exports to the web, F fits the view to the content, = and
/// numpad + zoom in, - and numpad - zoom out, 0 and numpad 0 reset the zoom.
pub proof fn law_ctrl_shortcuts(ctx: KeyContext, key: KeyInput)
    requires
        ctx.pressed,
        ctx.ctrl,
        !ctx.palette_open,
        !ctx.editing_text,
        !ctx.editing_note,
    ensures
        key_outcome(ctx, key, PhysicalCode::KeyA) == (KeyOutcome { command: KeyCommand::SelectAll, redraw: true }),
        key_outcome(ctx, key, PhysicalCode::KeyC) == (KeyOutcome { command: KeyCommand::CopySelection, redraw: true }),
        key_outcome(ctx, key, PhysicalCode::KeyV) == (KeyOutcome { command: KeyCommand::Paste, redraw: true }),
        key_outcome(ctx, key, PhysicalCode::KeyD) == (KeyOutcome { command: KeyCommand::DuplicateSelection, redraw: true }),
        key_outcome(ctx, key, PhysicalCode::KeyN) == (KeyOutcome { command: KeyCommand::NewWhiteboard, redraw: true }),
        key_outcome(ctx, key, PhysicalCode::KeyO) == (KeyOutcome { command: KeyCommand::NextFile, redraw: true }),
        key_outcome(ctx, key, PhysicalCode::KeyE) == (KeyOutcome { command: KeyCommand::ExportWeb, redraw: true }),
        key_outcome(ctx, key, PhysicalCode::KeyF) == (KeyOutcome { command: KeyCommand::FitToContent, redraw: true }),
        key_outcome(ctx, key, PhysicalCode::Equal) == (KeyOutcome { command: KeyCommand::ZoomIn, redraw: true }),
        key_outcome(ctx, key, PhysicalCode::NumpadAdd) == (KeyOutcome { command: KeyCommand::ZoomIn, redraw: true }),
        key_outcome(ctx, key, PhysicalCode::Minus) == (KeyOutcome { command: KeyCommand::ZoomOut, redraw: true }),
        key_outcome(ctx, key, PhysicalCode::NumpadSubtract) == (KeyOutcome { command: KeyCommand::ZoomOut, redraw: true }),
        key_outcome(ctx, key, PhysicalCode::Digit0) == (KeyOutcome { command: KeyCommand::ZoomReset, redraw: true }),
        key_outcome(ctx, key, PhysicalCode::Numpad0) == (KeyOutcome { command: KeyCommand::ZoomReset, redraw: true }),
        key_outcome(ctx, key, PhysicalCode::KeyK) == (KeyOutcome { command: KeyCommand::TogglePalette, redraw: true }),
        key_outcome(ctx, key, PhysicalCode::KeyY) == (KeyOutcome { command: KeyCommand::Redo, redraw: true }),
        key_outcome(ctx, key, PhysicalCode::KeyZ) == (KeyOutcome {
            command: if ctx.shift { KeyCommand::Redo } else { KeyCommand::Undo },
            redraw: true,
        }),
{
}

} // verus!
