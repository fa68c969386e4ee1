//! Crash recovery for in-progress edits: where the snapshot lives, what is
//! worth saving, when to write it, and when to offer it back on launch.
use vstd::prelude::*;
use crate::workspace::{joined, join_path};

verus! {

/// The snapshot file inside the workspace.
pub const RECOVERY_FILE_NAME: &'static str = ".writee-recovery.json";

/// The file a snapshot is written to before it replaces the last one.
pub const RECOVERY_TMP_FILE_NAME: &'static str = ".writee-recovery.json.tmp";

/// Minimum time between snapshot writes.
pub const SNAPSHOT_INTERVAL_SECS: u64 = 2;

/// Snapshots older than this on launch are not offered.
pub const MAX_AGE_SECS: u64 = 600;

/// The snapshot's path in a workspace.
pub fn path_for(root: &str) -> (p: String)
    ensures
        p@ == joined(root@, RECOVERY_FILE_NAME@),
{
    join_path(root, RECOVERY_FILE_NAME)
}

/// The temporary path a snapshot is written to first.
pub fn tmp_path_for(root: &str) -> (p: String)
    ensures
        p@ == joined(root@, RECOVERY_TMP_FILE_NAME@),
{
    join_path(root, RECOVERY_TMP_FILE_NAME)
}

/// Which parts of the in-progress state a snapshot keeps.
#[derive(Debug, Clone, Copy, PartialEq, Eq, Structural)]
pub struct RecoveryContent {
    /// The wet stroke being drawn.
    pub wet: bool,
    /// The text box being edited.
    pub text: bool,
    /// The inline note being edited.
    pub note: bool,
}

impl RecoveryContent {
    /// Whether anything is worth restoring.
    pub fn any(&self) -> (b: bool)
        ensures
            b == (self.wet || self.text || self.note),
    {
        self.wet || self.text || self.note
    }
}

/// What is worth saving: a stroke of at least two points while drawing, and
/// an edited text box or inline note that is not empty (`None` when nothing
/// of that kind is being edited; else its text's length).
pub fn recovery_content(drawing: bool, wet_len: usize, text_len: Option<usize>, note_len: Option<usize>) -> (c: RecoveryContent)
    ensures
        c.wet == (drawing && wet_len >= 2),
        c.text == (text_len matches Some(n) && n > 0),
        c.note == (note_len matches Some(n) && n > 0),
{
    let text = match text_len {
        Some(n) => n > 0,
        None => false,
    };
    let note = match note_len {
        Some(n) => n > 0,
        None => false,
    };
    RecoveryContent { wet: drawing && wet_len >= 2, text, note }
}

/// The autosave's next move.
#[derive(Debug, Clone, Copy, PartialEq, Eq, Structural)]
pub enum RecoveryStep {
    /// Nothing to save and nothing saved.
    Idle,
    /// Nothing to save any more: delete the snapshot and forget it.
    Clear,
    /// The last write is too recent.
    Wait,
    /// The state is what was saved last: only note the time.
    Touch,
    /// Write a snapshot, then note its time and signature.
    Write,
}

/// The autosave decision. `since_last_write` is the whole seconds since the
/// last write (`None` when none happened), `last_sig` the signature then,
/// `sig` the signature of the state now.
pub fn recovery_step(has_content: bool, since_last_write: Option<u64>, last_sig: Option<u64>, sig: u64) -> (s: RecoveryStep)
    ensures
        !has_content ==> s == (if since_last_write is Some { RecoveryStep::Clear } else { RecoveryStep::Idle }),
        has_content && (since_last_write matches Some(e) && e < SNAPSHOT_INTERVAL_SECS) ==> s == RecoveryStep::Wait,
        has_content && !(since_last_write matches Some(e) && e < SNAPSHOT_INTERVAL_SECS) ==> s == (if last_sig == Some(sig) { RecoveryStep::Touch } else { RecoveryStep::Write }),
{
    if !has_content {
        return if since_last_write.is_some() {
            RecoveryStep::Clear
        } else {
            RecoveryStep::Idle
        };
    }
    if let Some(e) = since_last_write {
        if e < SNAPSHOT_INTERVAL_SECS {
            return RecoveryStep::Wait;
        }
    }
    match last_sig {
        Some(l) => if l == sig {
            RecoveryStep::Touch
        } else {
            RecoveryStep::Write
        },
        None => RecoveryStep::Write,
    }
}

/// Whether a snapshot found on launch is offered back: it holds something
/// and is at most ten minutes old (a snapshot from the future counts as new).
pub fn offer_snapshot(now_secs: u64, written_at: u64, has_content: bool) -> (b: bool)
    ensures
        b == (has_content && (now_secs <= written_at || now_secs - written_at <= MAX_AGE_SECS)),
{
    let age = now_secs.saturating_sub(written_at);
    age <= MAX_AGE_SECS && has_content
}

/// A snapshot is restored only into the file it was taken from.
pub fn snapshot_applies(current_file: Option<&str>, snapshot_file: &str) -> (b: bool)
    ensures
        b == (current_file matches Some(c) && c@ == snapshot_file@),
{
    match current_file {
        Some(c) => crate::strings::str_eq(c, snapshot_file),
        None => false,
    }
}

/// A half-drawn stroke from a snapshot comes back as a stroke only when it
/// has at least two points.
pub fn restores_wet_stroke(wet_len: usize) -> (b: bool)
    ensures
        b == (wet_len >= 2),
{
    wet_len >= 2
}

} // verus!
