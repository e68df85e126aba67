//! The state of an open score document: its cells, whether it holds unsaved changes, how
//! far saving them has got, and when it next saves itself.
use vstd::prelude::*;

use crate::document::DocumentEvent;
use crate::part::{PartScore, copy_row, copy_rows, row_view, rows_view};
use crate::score::{EditModel, ScoreCellEdit};

verus! {

/// How far the saving of a score document has got.
#[derive(Clone, Copy, Debug, PartialEq, Eq, Structural)]
pub enum SaveState {
    Idle,
    Saving,
    SavingRecovered,
    RecoverySaved,
    Saved,
}

/// How long a document waits after an edit before it saves itself, in milliseconds.
pub const AUTOSAVE_DEBOUNCE_MILLIS: u64 = 750;

/// The longest a run of edits can put saving off, in milliseconds.
pub const AUTOSAVE_MAX_DELAY_MILLIS: u64 = 5000;

/// The score with cell (`row`, `column`) set to `value`.
pub open spec fn with_cell(score: Seq<Seq<Seq<char>>>, row: int, column: int, value: Seq<char>) -> Seq<Seq<Seq<char>>> {
    score.update(row, score[row].update(column, value))
}

/// Sets one cell of a score: the new score and the edit, when the cell exists and its text
/// changes; nothing otherwise.
pub fn score_with_cell(score: &PartScore, row: usize, column: usize, value: String) -> (r: Option<(PartScore, ScoreCellEdit)>)
    ensures
        (row < score@.len() && column < score@[row as int].len() && score@[row as int][column as int] != value@)
            ==> (r matches Some((s, e)) && s@ == with_cell(score@, row as int, column as int, value@) && e@ == (EditModel {
            row,
            column,
            before: score@[row as int][column as int],
            after: value@,
        })),
        !(row < score@.len() && column < score@[row as int].len() && score@[row as int][column as int] != value@)
            ==> r is None,
{
    let rows = score.rows();
    if row >= rows.len() {
        return None;
    }
    assert(row_view(rows@[row as int]) == score@[row as int]);
    if column >= rows[row].len() {
        return None;
    }
    if rows[row][column] == value {
        return None;
    }
    let before = rows[row][column].clone();
    let mut copied = copy_rows(rows);
    assert(rows_view(copied@).len() == copied@.len());
    let mut cells = copy_row(&copied[row]);
    let ghost old_cells = row_view(cells);
    assert(old_cells == score@[row as int]) by {
        assert(rows_view(copied@)[row as int] == row_view(copied@[row as int]));
        assert(rows_view(rows@)[row as int] == row_view(rows@[row as int]));
    }
    cells.set(column, value.clone());
    assert(row_view(cells) =~= old_cells.update(column as int, value@));
    copied.set(row, cells);
    assert(rows_view(copied@) =~= with_cell(score@, row as int, column as int, value@));
    let edited = PartScore::from_rows(copied);
    Some((edited, ScoreCellEdit { row, column, before, after: value }))
}

/// Some row of one score has a different number of cells than in the other, or the number
/// of rows differs.
pub open spec fn structure_differs(a: Seq<Seq<Seq<char>>>, b: Seq<Seq<Seq<char>>>) -> bool {
    a.len() != b.len() || exists|i: int| 0 <= i < a.len() && (#[trigger] a[i]).len() != b[i].len()
}

/// Whether restoring `restored` over `current` changes the rows or their lengths.
pub fn structure_changed(current: &PartScore, restored: &PartScore) -> (r: bool)
    ensures
        r == structure_differs(current@, restored@),
{
    let a = current.rows();
    let b = restored.rows();
    if a.len() != b.len() {
        assert(rows_view(a@).len() != rows_view(b@).len());
        return true;
    }
    let n = a.len();
    for i in 0..n
        invariant
            n == a@.len(),
            n == b@.len(),
            rows_view(a@) == current@,
            rows_view(b@) == restored@,
            forall|j: int| 0 <= j < i ==> (#[trigger] current@[j]).len() == restored@[j].len(),
    {
        assert(current@[i as int] == row_view(a@[i as int]));
        assert(restored@[i as int] == row_view(b@[i as int]));
        if a[i].len() != b[i].len() {
            return true;
        }
    }
    false
}

/// The saving side of a score document: unsaved changes, the last failure, how far saving
/// has got, and since when (in milliseconds) edits have been waiting to be saved.
#[derive(Debug)]
pub struct SaveTracker {
    pub dirty: bool,
    pub last_save_error: Option<String>,
    pub save_state: SaveState,
    pub pending_since: Option<u64>,
}

pub struct TrackerModel {
    pub dirty: bool,
    pub last_save_error: Option<Seq<char>>,
    pub save_state: SaveState,
    pub pending_since: Option<u64>,
}

impl View for SaveTracker {
    type V = TrackerModel;

    open spec fn view(&self) -> TrackerModel {
        TrackerModel {
            dirty: self.dirty,
            last_save_error: match self.last_save_error {
                Some(m) => Some(m@),
                None => None,
            },
            save_state: self.save_state,
            pending_since: self.pending_since,
        }
    }
}

/// The wait before the next autosave at time `now`, for edits waiting since `since`: the
/// debounce, cut short so that the run of edits is saved within the maximum delay.
pub open spec fn autosave_delay(now: u64, since: u64) -> u64 {
    let elapsed: int = if now >= since { now - since } else { 0 };
    let remaining: int = if elapsed <= AUTOSAVE_MAX_DELAY_MILLIS { AUTOSAVE_MAX_DELAY_MILLIS - elapsed } else { 0 };
    (if remaining < AUTOSAVE_DEBOUNCE_MILLIS { remaining } else { AUTOSAVE_DEBOUNCE_MILLIS as int }) as u64
}

/// The save state once an autosave is scheduled: saving, unless a recovered score is being saved.
pub open spec fn scheduled_state(s: SaveState) -> SaveState {
    if s == SaveState::SavingRecovered {
        SaveState::SavingRecovered
    } else {
        SaveState::Saving
    }
}

impl SaveTracker {
    /// A document just opened: clean and idle.
    pub fn new() -> (r: Self)
        ensures
            r@ == (TrackerModel { dirty: false, last_save_error: None, save_state: SaveState::Idle, pending_since: None }),
    {
        SaveTracker { dirty: false, last_save_error: None, save_state: SaveState::Idle, pending_since: None }
    }

    /// Schedules an autosave at time `now`, and gives how long to wait for it.
    pub fn schedule_autosave(&mut self, now: u64) -> (delay: u64)
        ensures
            final(self).pending_since == Some(match old(self).pending_since {
                Some(t) => t,
                None => now,
            }),
            delay == autosave_delay(now, final(self).pending_since->0),
            delay <= AUTOSAVE_DEBOUNCE_MILLIS,
            final(self).save_state == scheduled_state(old(self).save_state),
            final(self).dirty == old(self).dirty,
            final(self).last_save_error == old(self).last_save_error,
    {
        let since = match self.pending_since {
            Some(t) => t,
            None => now,
        };
        self.pending_since = Some(since);
        let elapsed = now.saturating_sub(since);
        let remaining = AUTOSAVE_MAX_DELAY_MILLIS.saturating_sub(elapsed);
        let delay = if remaining < AUTOSAVE_DEBOUNCE_MILLIS {
            remaining
        } else {
            AUTOSAVE_DEBOUNCE_MILLIS
        };
        if self.save_state != SaveState::SavingRecovered {
            self.save_state = SaveState::Saving;
        }
        delay
    }

    /// The document's cells changed at time `now`: it holds unsaved changes, forgets the last
    /// failure, and schedules an autosave, whose wait is given.
    pub fn edited(&mut self, now: u64) -> (delay: u64)
        ensures
            final(self).dirty,
            final(self).last_save_error is None,
            final(self).pending_since == Some(match old(self).pending_since {
                Some(t) => t,
                None => now,
            }),
            delay == autosave_delay(now, final(self).pending_since->0),
            final(self).save_state == scheduled_state(old(self).save_state),
    {
        self.dirty = true;
        self.last_save_error = None;
        self.schedule_autosave(now)
    }

    /// A score recovered from an unfinished save was loaded at time `now`: it is saved as a
    /// change of its own.
    pub fn recovered(&mut self, now: u64) -> (delay: u64)
        ensures
            final(self).dirty,
            final(self).save_state == SaveState::SavingRecovered,
            final(self).last_save_error == old(self).last_save_error,
            final(self).pending_since == Some(match old(self).pending_since {
                Some(t) => t,
                None => now,
            }),
            delay == autosave_delay(now, final(self).pending_since->0),
    {
        self.dirty = true;
        self.save_state = SaveState::SavingRecovered;
        self.schedule_autosave(now)
    }

    /// A save begins: no edits are waiting for one any more.
    pub fn save_started(&mut self)
        ensures
            final(self).pending_since is None,
            final(self).dirty == old(self).dirty,
            final(self).last_save_error == old(self).last_save_error,
            final(self).save_state == old(self).save_state,
    {
        self.pending_since = None;
    }

    /// A save failed with `message`.
    pub fn save_failed(&mut self, message: String) -> (event: DocumentEvent)
        ensures
            final(self)@.last_save_error == Some(message@),
            final(self).dirty == old(self).dirty,
            final(self).save_state == old(self).save_state,
            final(self).pending_since == old(self).pending_since,
            event is SaveFailed,
    {
        self.last_save_error = Some(message);
        DocumentEvent::SaveFailed
    }

    /// The score file of an explicit save could not be written: the recovery file holds the
    /// changes, and the failure is reported.
    pub fn save_write_failed(&mut self, message: String) -> (event: DocumentEvent)
        ensures
            final(self).save_state == SaveState::RecoverySaved,
            final(self)@.last_save_error == Some(message@),
            final(self).dirty == old(self).dirty,
            final(self).pending_since == old(self).pending_since,
            event is SaveFailed,
    {
        self.save_state = SaveState::RecoverySaved;
        self.save_failed(message)
    }

    /// The score file of an autosave could not be written: a score that does not resolve
    /// stays in its recovery file without being reported as a failure; any other failure is.
    pub fn autosave_write_failed(&mut self, message: String, invalid_pitch: bool) -> (event: DocumentEvent)
        ensures
            invalid_pitch ==> final(self).last_save_error is None && final(self).save_state == SaveState::RecoverySaved
                && event is RecoverySaved,
            !invalid_pitch ==> final(self)@.last_save_error == Some(message@) && final(self).save_state
                == old(self).save_state && event is SaveFailed,
            final(self).dirty == old(self).dirty,
            final(self).pending_since == old(self).pending_since,
    {
        if invalid_pitch {
            self.last_save_error = None;
            self.save_state = SaveState::RecoverySaved;
            DocumentEvent::RecoverySaved
        } else {
            self.save_failed(message)
        }
    }

    /// The score file was written.
    pub fn score_written(&mut self)
        ensures
            final(self).save_state == SaveState::Saved,
            final(self).dirty == old(self).dirty,
            final(self).last_save_error == old(self).last_save_error,
            final(self).pending_since == old(self).pending_since,
    {
        self.save_state = SaveState::Saved;
    }

    /// The recovery file was removed after a save: the document is clean. A failure to
    /// remove it is reported.
    pub fn recovery_cleared(&mut self, result: Result<(), String>) -> (event: DocumentEvent)
        ensures
            result is Ok ==> !final(self).dirty && final(self).last_save_error is None && event is Saved,
            result matches Err(m) ==> final(self)@.last_save_error == Some(m@) && final(self).dirty == old(self).dirty
                && event is SaveFailed,
            final(self).save_state == old(self).save_state,
            final(self).pending_since == old(self).pending_since,
    {
        match result {
            Ok(()) => {
                self.dirty = false;
                self.last_save_error = None;
                DocumentEvent::Saved
            },
            Err(message) => self.save_failed(message),
        }
    }

    /// The document's content was replaced from outside: clean, idle, nothing waiting.
    pub fn reset(&mut self) -> (event: DocumentEvent)
        ensures
            final(self)@ == (TrackerModel { dirty: false, last_save_error: None, save_state: SaveState::Idle, pending_since: None }),
            event is Reset,
    {
        self.dirty = false;
        self.last_save_error = None;
        self.save_state = SaveState::Idle;
        self.pending_since = None;
        DocumentEvent::Reset
    }

    /// A change of the score's rows was saved by the project: clean and saved.
    pub fn structure_saved(&mut self)
        ensures
            final(self)@ == (TrackerModel { dirty: false, last_save_error: None, save_state: SaveState::Saved, pending_since: None }),
    {
        self.dirty = false;
        self.last_save_error = None;
        self.save_state = SaveState::Saved;
        self.pending_since = None;
    }

    /// The history restored the document's content: it holds unsaved changes exactly when
    /// the restored score differs from the saved one, which then stays in its recovery file.
    pub fn history_restored(&mut self, has_recovery: bool)
        ensures
            final(self)@ == (TrackerModel {
                dirty: has_recovery,
                last_save_error: None,
                save_state: if has_recovery { SaveState::RecoverySaved } else { SaveState::Saved },
                pending_since: None,
            }),
    {
        self.dirty = has_recovery;
        self.last_save_error = None;
        self.save_state = if has_recovery {
            SaveState::RecoverySaved
        } else {
            SaveState::Saved
        };
        self.pending_since = None;
    }

    /// The project's or the part's settings changed: the last failure no longer applies.
    pub fn settings_changed(&mut self)
        ensures
            final(self).last_save_error is None,
            final(self).dirty == old(self).dirty,
            final(self).save_state == old(self).save_state,
            final(self).pending_since == old(self).pending_since,
    {
        self.last_save_error = None;
    }
}

/// A run of edits is saved within the maximum delay of its first edit: an autosave scheduled
/// at `now`, for edits waiting since `since`, is due no later than `since` plus the maximum
/// delay, and never later than the debounce after `now`.
pub proof fn law_autosave_within_the_maximum_delay(now: u64, since: u64)
    requires
        since <= now,
    ensures
        autosave_delay(now, since) <= AUTOSAVE_DEBOUNCE_MILLIS,
        now - since <= AUTOSAVE_MAX_DELAY_MILLIS ==> now + autosave_delay(now, since) <= since
            + AUTOSAVE_MAX_DELAY_MILLIS,
{
}

} // verus!
