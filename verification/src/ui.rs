//! The prompt state: the renderable snapshot of the line editor at one
//! point in time.  Painting it on a terminal is the caller's part; this
//! module holds the state itself and its invariant.

use vstd::prelude::*;

use crate::keys::Mode;

verus! {

/// The line editor's state: the editable line, the cursor, the mode, the
/// completion candidates of the last keystroke, and the history-browsing
/// bookkeeping.
#[derive(Clone, Debug)]
pub struct Prompt {
    /// Cursor offset into `input`, in characters.
    pub position: usize,
    /// The line being edited.
    pub input: String,
    /// What the last key event made of the editing session.
    pub mode: Mode,
    /// Completion candidates to show; cleared after every render cycle.
    pub completions: Vec<String>,
    /// `0` when not browsing history; `1..=len(history)` counts back from
    /// the most recent entry.
    pub history_idx: usize,
    /// The cursor position before the last history step, for repainting.
    pub prev_position: usize,
    /// The line at the moment history browsing started.
    pub saved_input: String,
}

/// The mathematical shape of a `Prompt`.
#[verifier::ext_equal]
pub struct PromptModel {
    pub position: int,
    pub input: Seq<char>,
    pub mode: Mode,
    pub completions: Seq<Seq<char>>,
    pub history_idx: int,
    pub prev_position: int,
    pub saved_input: Seq<char>,
}

impl View for Prompt {
    type V = PromptModel;

    open spec fn view(&self) -> PromptModel {
        PromptModel {
            position: self.position as int,
            input: self.input@,
            mode: self.mode,
            completions: self.completions.deep_view(),
            history_idx: self.history_idx as int,
            prev_position: self.prev_position as int,
            saved_input: self.saved_input@,
        }
    }
}

/// The cursor stays inside the line.
pub open spec fn cursor_ok(p: PromptModel) -> bool {
    0 <= p.position <= p.input.len()
}

/// A well-formed editor state against a history of `hist_len` entries: the
/// cursor stays inside the line and the history cursor inside the history.
pub open spec fn prompt_wf(p: PromptModel, hist_len: int) -> bool {
    cursor_ok(p) && 0 <= p.history_idx <= hist_len
}

/// The state a fresh editing session starts from.
pub open spec fn default_prompt() -> PromptModel {
    PromptModel {
        position: 0,
        input: Seq::empty(),
        mode: Mode::Input,
        completions: Seq::empty(),
        history_idx: 0,
        prev_position: 0,
        saved_input: Seq::empty(),
    }
}

impl Default for Prompt {
    /// A fresh editing session: empty line, cursor at the start, input
    /// mode, no completions, not browsing history.
    fn default() -> (d: Prompt)
        ensures
            d@ == default_prompt(),
    {
        let d = Prompt {
            position: 0,
            input: String::new(),
            mode: Mode::Input,
            completions: Vec::new(),
            history_idx: 0,
            prev_position: 0,
            saved_input: String::new(),
        };
        proof {
            assert(d@ =~~= default_prompt());
        }
        d
    }
}

} // verus!
