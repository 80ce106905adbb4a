//! The line editor: a per-keystroke state machine over the prompt state.
//! One key event at a time goes in; the prompt state is transformed exactly
//! as the transition function `editor_step` says.  Reading key events from
//! a terminal and painting the prompt are the caller's part.

use vstd::prelude::*;
use vstd::string::StrSliceExecFns;
use vstd::string::StringExecFns;

use crate::text::is_prefix_of;
use crate::text::push_char;
use crate::ui::Prompt;
use crate::ui::PromptModel;
use crate::ui::cursor_ok;
use crate::ui::default_prompt;
use crate::ui::prompt_wf;

verus! {

/// What the last key event made of the editing session.
#[derive(Clone, Copy, Debug, Default, PartialEq, Eq, Structural)]
pub enum Mode {
    /// Still editing.
    #[default]
    Input,
    /// The line was submitted with Enter.
    Submit,
    /// The session was interrupted; the caller starts a fresh one.
    Break,
    /// The shell should end.
    Exit,
    /// The last key event stepped through the history.
    HistoryLookup,
}

/// The key of one key event, as the editor understands it.
#[derive(Clone, Copy, Debug)]
pub enum Key {
    Char(char),
    Backspace,
    Left,
    Right,
    Up,
    Down,
    Enter,
    Tab,
    Other,
}

/// One key event: the key itself and whether Control alone was held.
#[derive(Clone, Copy, Debug)]
pub struct KeyInput {
    pub key: Key,
    pub ctrl: bool,
}

/// Whitespace for the purpose of splitting the line into tokens when
/// completing.
pub open spec fn is_blank(c: char) -> bool {
    c == ' ' || c == '\t'
}

/// The maximal run of non-blank characters at the end of `line`.
pub open spec fn last_run(line: Seq<char>) -> Seq<char>
    decreases line.len(),
{
    if line.len() == 0 {
        Seq::empty()
    } else if is_blank(line[line.len() - 1]) {
        Seq::empty()
    } else {
        last_run(line.drop_last()).push(line[line.len() - 1])
    }
}

/// The last blank-delimited token of `line`: the last maximal non-blank
/// run, or empty if the line holds none.
pub open spec fn last_token(line: Seq<char>) -> Seq<char>
    decreases line.len(),
{
    if line.len() == 0 {
        Seq::empty()
    } else if is_blank(line[line.len() - 1]) {
        last_token(line.drop_last())
    } else {
        last_run(line)
    }
}

/// The entries from position `i` on that the partial token is a prefix of,
/// in order.
pub open spec fn matching_from(entries: Seq<Seq<char>>, pre: Seq<char>, i: int) -> Seq<Seq<char>>
    decreases entries.len() - i,
    when 0 <= i <= entries.len()
{
    if i >= entries.len() {
        Seq::empty()
    } else if pre.is_prefix_of(entries[i]) {
        seq![entries[i]] + matching_from(entries, pre, i + 1)
    } else {
        matching_from(entries, pre, i + 1)
    }
}

/// The entries that the partial token is a prefix of, in order.
pub open spec fn matching_entries(entries: Seq<Seq<char>>, pre: Seq<char>) -> Seq<Seq<char>> {
    matching_from(entries, pre, 0)
}

/// The partial token is a prefix of every matching entry.
pub proof fn lemma_matching_from(entries: Seq<Seq<char>>, pre: Seq<char>, i: int)
    requires
        0 <= i <= entries.len(),
    ensures
        forall|x: int|
            0 <= x < matching_from(entries, pre, i).len() ==> pre.is_prefix_of(
                #[trigger] matching_from(entries, pre, i)[x],
            ),
    decreases entries.len() - i,
{
    if i < entries.len() {
        lemma_matching_from(entries, pre, i + 1);
        if pre.is_prefix_of(entries[i]) {
            assert forall|x: int| 0 <= x < matching_from(entries, pre, i).len() implies
                pre.is_prefix_of(#[trigger] matching_from(entries, pre, i)[x]) by {
                if x == 0 {
                    assert(matching_from(entries, pre, i)[0] == entries[i]);
                } else {
                    assert(matching_from(entries, pre, i)[x] == matching_from(entries, pre, i + 1)[
                        x - 1
                    ]);
                }
            }
        } else {
            assert forall|x: int| 0 <= x < matching_from(entries, pre, i).len() implies
                pre.is_prefix_of(#[trigger] matching_from(entries, pre, i)[x]) by {
                assert(matching_from(entries, pre, i)[x] == matching_from(entries, pre, i + 1)[x]);
            }
        }
    }
}

/// What completing against `entries` yields for `line`: the matching
/// entries; a single match is handed back with the partial token's matched
/// prefix stripped.
pub open spec fn completions_of(line: Seq<char>, entries: Seq<Seq<char>>) -> Seq<Seq<char>> {
    let pre = last_token(line);
    let m = matching_entries(entries, pre);
    if m.len() == 1 {
        seq![m[0].skip(pre.len() as int)]
    } else {
        m
    }
}

proof fn lemma_last_run_chars(s: Seq<char>, b: int)
    requires
        0 <= b <= s.len(),
        forall|x: int| b <= x < s.len() ==> !is_blank(s[x]),
        b == 0 || is_blank(s[b - 1]),
    ensures
        last_run(s) == s.subrange(b, s.len() as int),
    decreases s.len(),
{
    if s.len() == 0 {
        assert(last_run(s) =~= s.subrange(b, s.len() as int));
    } else if is_blank(s[s.len() - 1]) {
        assert(b == s.len());
        assert(last_run(s) =~= s.subrange(b, s.len() as int));
    } else {
        assert(b < s.len());
        lemma_last_run_chars(s.drop_last(), b);
        assert(s.drop_last().subrange(b, s.len() - 1) =~= s.subrange(b, s.len() - 1));
        assert(last_run(s) =~= s.subrange(b, s.len() as int));
    }
}

/// Extracts the last blank-delimited token of `line`.
fn last_token_exec(line: &str) -> (t: String)
    ensures
        t@ == last_token(line@),
{
    let n = line.unicode_len();
    proof {
        assert(line@.subrange(0, n as int) =~= line@);
    }
    let mut e = n;
    loop
        invariant
            0 <= e <= n,
            n == line@.len(),
            last_token(line@) == last_token(line@.subrange(0, e as int)),
        ensures
            0 <= e <= n,
            last_token(line@) == last_token(line@.subrange(0, e as int)),
            e == 0 || !is_blank(line@[e - 1]),
        decreases e,
    {
        if e == 0 {
            break;
        }
        let c = line.get_char(e - 1);
        if c != ' ' && c != '\t' {
            break;
        }
        proof {
            let s = line@.subrange(0, e as int);
            assert(s.drop_last() =~= line@.subrange(0, e - 1));
        }
        e = e - 1;
    }
    let mut b = e;
    loop
        invariant
            0 <= b <= e <= n,
            n == line@.len(),
            forall|x: int| b <= x < e ==> !is_blank(line@[x]),
        ensures
            0 <= b <= e <= n,
            forall|x: int| b <= x < e ==> !is_blank(line@[x]),
            b == 0 || is_blank(line@[b - 1]),
        decreases b,
    {
        if b == 0 {
            break;
        }
        let c = line.get_char(b - 1);
        if c == ' ' || c == '\t' {
            break;
        }
        b = b - 1;
    }
    let t = line.substring_char(b, e).to_owned();
    proof {
        let s = line@.subrange(0, e as int);
        if e == 0 {
            assert(last_token(s) =~= Seq::<char>::empty());
            assert(t@ =~= last_token(line@));
        } else {
            assert(!is_blank(s[s.len() - 1]));
            assert(forall|x: int| b <= x < e ==> !is_blank(s[x]));
            lemma_last_run_chars(s, b as int);
            assert(s.subrange(b as int, e as int) =~= line@.subrange(b as int, e as int));
            assert(t@ == last_token(line@));
        }
    }
    t
}

/// Lists what the filesystem entries complete the line's last token to.
/// Entries that the partial token is a prefix of match, in order; a single
/// match is handed back with the matched prefix stripped, ready to append.
pub fn get_completion(line: &str, entries: &Vec<String>) -> (r: Vec<String>)
    ensures
        r.deep_view() == completions_of(line@, entries.deep_view()),
{
    let pre = last_token_exec(line);
    let ghost prev = pre@;
    let ghost ents = entries.deep_view();
    let mut matches: Vec<String> = Vec::new();
    let mut i: usize = 0;
    while i < entries.len()
        invariant
            0 <= i <= ents.len(),
            ents == entries.deep_view(),
            pre@ == prev,
            matching_from(ents, prev, 0) == matches.deep_view() + matching_from(
                ents,
                prev,
                i as int,
            ),
        decreases ents.len() - i,
    {
        let ghost acc = matches.deep_view();
        if is_prefix_of(pre.as_str(), entries[i].as_str()) {
            matches.push(entries[i].clone());
            proof {
                assert(matches.deep_view() =~= acc.push(ents[i as int]));
                assert(acc + matching_from(ents, prev, i as int) =~= matches.deep_view()
                    + matching_from(ents, prev, i + 1));
            }
        } else {
            proof {
                assert(matching_from(ents, prev, i as int) == matching_from(ents, prev, i + 1));
            }
        }
        i = i + 1;
    }
    proof {
        assert(matching_from(ents, prev, ents.len() as int) =~= Seq::<Seq<char>>::empty());
        assert(matching_entries(ents, prev) =~= matches.deep_view());
    }
    if matches.len() == 1 {
        let m0 = &matches[0];
        let plen = pre.unicode_len();
        let mlen = m0.unicode_len();
        proof {
            assert(matches.deep_view()[0] == m0@);
            lemma_matching_from(ents, prev, 0);
            assert(prev.is_prefix_of(m0@));
        }
        let stripped = m0.as_str().substring_char(plen, mlen).to_owned();
        let mut r: Vec<String> = Vec::new();
        r.push(stripped);
        proof {
            assert(r.deep_view() =~= completions_of(line@, entries.deep_view()));
        }
        r
    } else {
        matches
    }
}

/// How one key event transforms the prompt state, against a read-only
/// history and a read-only listing of filesystem entries for completion.
pub open spec fn editor_step(
    k: KeyInput,
    p: PromptModel,
    hist: Seq<Seq<char>>,
    entries: Seq<Seq<char>>,
) -> PromptModel {
    if k.ctrl && p.mode == Mode::Input && k.key == Key::Char('c') {
        PromptModel { mode: Mode::Break, ..p }
    } else if k.ctrl && p.mode == Mode::Input && k.key == Key::Char('d') {
        PromptModel { mode: Mode::Exit, ..p }
    } else {
        match k.key {
            Key::Char(c) => PromptModel {
                input: p.input.subrange(0, p.position) + seq![c] + p.input.subrange(
                    p.position,
                    p.input.len() as int,
                ),
                position: p.position + 1,
                ..p
            },
            Key::Backspace => if p.input.len() == 0 || p.position == 0 {
                p
            } else {
                PromptModel {
                    input: p.input.subrange(0, p.position - 1) + p.input.subrange(
                        p.position,
                        p.input.len() as int,
                    ),
                    position: p.position - 1,
                    ..p
                }
            },
            Key::Left => if p.position > 0 {
                PromptModel { position: p.position - 1, ..p }
            } else {
                p
            },
            Key::Right => if p.position < p.input.len() {
                PromptModel { position: p.position + 1, ..p }
            } else {
                p
            },
            Key::Up => if hist.len() > 0 && p.history_idx < hist.len() {
                PromptModel {
                    saved_input: if p.history_idx == 0 {
                        p.input
                    } else {
                        p.saved_input
                    },
                    input: hist[hist.len() - p.history_idx - 1],
                    prev_position: p.position,
                    position: hist[hist.len() - p.history_idx - 1].len() as int,
                    history_idx: p.history_idx + 1,
                    mode: Mode::HistoryLookup,
                    ..p
                }
            } else {
                p
            },
            Key::Down => if p.history_idx > 0 {
                let line = if p.history_idx == 1 {
                    p.saved_input
                } else {
                    hist[hist.len() - p.history_idx + 1]
                };
                PromptModel {
                    input: line,
                    prev_position: p.position,
                    position: line.len() as int,
                    history_idx: p.history_idx - 1,
                    mode: Mode::HistoryLookup,
                    ..p
                }
            } else {
                p
            },
            Key::Enter => PromptModel { mode: Mode::Submit, ..p },
            Key::Tab => PromptModel { completions: completions_of(p.input, entries), ..p },
            Key::Other => p,
        }
    }
}

/// Handles one key event: transforms the prompt exactly as `editor_step`
/// says, and keeps the state well-formed.
pub fn handle_keypressed(
    event: KeyInput,
    prompt: &mut Prompt,
    history: &Vec<String>,
    entries: &Vec<String>,
)
    requires
        prompt_wf(old(prompt)@, history@.len() as int),
    ensures
        final (prompt)@ == editor_step(
            event,
            old(prompt)@,
            history.deep_view(),
            entries.deep_view(),
        ),
        prompt_wf(final (prompt)@, history@.len() as int),
{
    let ghost p0 = prompt@;
    let ghost hist = history.deep_view();
    let ghost ents = entries.deep_view();
    let is_input_mode = match prompt.mode {
        Mode::Input => true,
        _ => false,
    };
    if event.ctrl && is_input_mode {
        match event.key {
            Key::Char(c) => {
                if c == 'c' {
                    prompt.mode = Mode::Break;
                    proof {
                        assert(prompt@ =~~= editor_step(event, p0, hist, ents));
                    }
                    return ;
                }
                if c == 'd' {
                    prompt.mode = Mode::Exit;
                    proof {
                        assert(prompt@ =~~= editor_step(event, p0, hist, ents));
                    }
                    return ;
                }
            },
            _ => {},
        }
    }
    match event.key {
        Key::Char(c) => {
            let len = prompt.input.unicode_len();
            if prompt.position < len {
                let mut head = prompt.input.substring_char(0, prompt.position).to_owned();
                push_char(&mut head, c);
                let tail = prompt.input.substring_char(prompt.position, len);
                head.append(tail);
                prompt.input = head;
                prompt.position = prompt.position + 1;
            } else {
                push_char(&mut prompt.input, c);
                prompt.position = prompt.input.unicode_len();
            }
            proof {
                assert(prompt@.input =~= p0.input.subrange(0, p0.position) + seq![c]
                    + p0.input.subrange(p0.position, p0.input.len() as int));
                assert(prompt@ =~~= editor_step(event, p0, hist, ents));
            }
        },
        Key::Backspace => {
            let len = prompt.input.unicode_len();
            if len == 0 || prompt.position == 0 {
                proof {
                    assert(prompt@ =~~= editor_step(event, p0, hist, ents));
                }
            } else {
                if prompt.position == len {
                    let head = prompt.input.substring_char(0, len - 1).to_owned();
                    prompt.input = head;
                    prompt.position = prompt.position - 1;
                } else {
                    let mut head = prompt.input.substring_char(0, prompt.position - 1).to_owned();
                    let tail = prompt.input.substring_char(prompt.position, len);
                    head.append(tail);
                    prompt.input = head;
                    prompt.position = prompt.position - 1;
                }
                proof {
                    assert(prompt@.input =~= p0.input.subrange(0, p0.position - 1)
                        + p0.input.subrange(p0.position, p0.input.len() as int));
                    assert(prompt@ =~~= editor_step(event, p0, hist, ents));
                }
            }
        },
        Key::Left => {
            if prompt.position > 0 {
                prompt.position = prompt.position - 1;
            }
            proof {
                assert(prompt@ =~~= editor_step(event, p0, hist, ents));
            }
        },
        Key::Right => {
            let len = prompt.input.unicode_len();
            if prompt.position < len {
                prompt.position = prompt.position + 1;
            }
            proof {
                assert(prompt@ =~~= editor_step(event, p0, hist, ents));
            }
        },
        Key::Up => {
            if history.len() > 0 && prompt.history_idx < history.len() {
                if prompt.history_idx == 0 {
                    prompt.saved_input = prompt.input.clone();
                }
                let entry = &history[history.len() - (prompt.history_idx + 1)];
                prompt.input = entry.clone();
                prompt.prev_position = prompt.position;
                prompt.position = prompt.input.unicode_len();
                prompt.history_idx = prompt.history_idx + 1;
                prompt.mode = Mode::HistoryLookup;
            }
            proof {
                assert(prompt@ =~~= editor_step(event, p0, hist, ents));
            }
        },
        Key::Down => {
            if prompt.history_idx > 0 {
                if prompt.history_idx == 1 {
                    prompt.input = prompt.saved_input.clone();
                } else {
                    let entry = &history[history.len() - prompt.history_idx + 1];
                    prompt.input = entry.clone();
                }
                prompt.prev_position = prompt.position;
                prompt.position = prompt.input.unicode_len();
                prompt.history_idx = prompt.history_idx - 1;
                prompt.mode = Mode::HistoryLookup;
            }
            proof {
                assert(prompt@ =~~= editor_step(event, p0, hist, ents));
            }
        },
        Key::Enter => {
            prompt.mode = Mode::Submit;
            proof {
                assert(prompt@ =~~= editor_step(event, p0, hist, ents));
            }
        },
        Key::Tab => {
            prompt.completions = get_completion(&prompt.input, entries);
            proof {
                assert(prompt@ =~~= editor_step(event, p0, hist, ents));
            }
        },
        Key::Other => {
            proof {
                assert(prompt@ =~~= editor_step(event, p0, hist, ents));
            }
        },
    }
}

/// The completion step after a key event: a single candidate is appended
/// to the line and the cursor advances by its length; anything else leaves
/// the state alone.
pub open spec fn completion_step(p: PromptModel) -> PromptModel {
    if p.completions.len() == 1 {
        PromptModel {
            input: p.input + p.completions[0],
            position: p.position + p.completions[0].len(),
            ..p
        }
    } else {
        p
    }
}

/// Applies a single completion candidate to the line.
pub fn apply_completion(prompt: &mut Prompt)
    requires
        cursor_ok(old(prompt)@),
    ensures
        final (prompt)@ == completion_step(old(prompt)@),
        cursor_ok(final (prompt)@),
{
    let ghost p0 = prompt@;
    if prompt.completions.len() == 1 {
        let clen = prompt.completions[0].unicode_len();
        prompt.input.append(prompt.completions[0].as_str());
        let newlen = prompt.input.unicode_len();
        proof {
            assert(prompt@.input.len() == p0.input.len() + clen);
            assert(prompt.position + clen <= newlen);
        }
        prompt.position = prompt.position + clen;
        proof {
            assert(prompt@ =~~= completion_step(p0));
        }
    } else {
        proof {
            assert(prompt@ =~~= completion_step(p0));
        }
    }
}

/// What the caller should do once a key event has been handled and the
/// prompt repainted.
#[derive(Clone, Copy, Debug, PartialEq, Eq, Structural)]
pub enum CycleStep {
    /// Keep editing: read the next key event.
    Continue,
    /// The line was submitted; the prompt's `input` holds the finalized
    /// line.
    Submitted,
    /// Leave the shell.
    Terminate,
}

/// The prompt state at the end of a key cycle: the completion candidates
/// are cleared; an interrupted session starts over from the default state;
/// an ordinary key returns the mode to `Input`.
pub open spec fn end_cycle_state(p: PromptModel) -> PromptModel {
    match p.mode {
        Mode::Exit => PromptModel { completions: Seq::empty(), ..p },
        Mode::Submit => PromptModel { completions: Seq::empty(), ..p },
        Mode::Break => default_prompt(),
        _ => PromptModel { completions: Seq::empty(), mode: Mode::Input, ..p },
    }
}

/// What the caller should do at the end of a key cycle: leave on `Exit`,
/// hand the line on after `Submit`, keep editing otherwise.
pub open spec fn end_cycle_step(p: PromptModel) -> CycleStep {
    match p.mode {
        Mode::Exit => CycleStep::Terminate,
        Mode::Submit => CycleStep::Submitted,
        _ => CycleStep::Continue,
    }
}

/// Ends one key cycle: clears the shown completions, resets an interrupted
/// session, and says what the caller should do next.
pub fn end_key_cycle(prompt: &mut Prompt) -> (step: CycleStep)
    ensures
        final (prompt)@ == end_cycle_state(old(prompt)@),
        step == end_cycle_step(old(prompt)@),
{
    let ghost p0 = prompt@;
    prompt.completions = Vec::new();
    proof {
        assert(prompt@.completions =~= Seq::<Seq<char>>::empty());
    }
    match prompt.mode {
        Mode::Exit => {
            proof {
                assert(prompt@ =~~= end_cycle_state(p0));
            }
            CycleStep::Terminate
        },
        Mode::Submit => {
            proof {
                assert(prompt@ =~~= end_cycle_state(p0));
            }
            CycleStep::Submitted
        },
        Mode::Break => {
            *prompt = Prompt::default();
            CycleStep::Continue
        },
        _ => {
            prompt.mode = Mode::Input;
            proof {
                assert(prompt@ =~~= end_cycle_state(p0));
            }
            CycleStep::Continue
        },
    }
}

/// After any key event on a well-formed state, the cursor still lies
/// between 0 and the line's length, and the history cursor inside the
/// history.
pub proof fn lemma_editor_step_wf(
    k: KeyInput,
    p: PromptModel,
    hist: Seq<Seq<char>>,
    entries: Seq<Seq<char>>,
)
    requires
        prompt_wf(p, hist.len() as int),
    ensures
        prompt_wf(editor_step(k, p, hist, entries), hist.len() as int),
{
}

/// Backspace on an empty line, or with the cursor at the start, changes
/// nothing: neither the line nor the cursor.
pub proof fn lemma_backspace_noop(
    k: KeyInput,
    p: PromptModel,
    hist: Seq<Seq<char>>,
    entries: Seq<Seq<char>>,
)
    requires
        k.key is Backspace,
        p.input.len() == 0 || p.position == 0,
    ensures
        editor_step(k, p, hist, entries) == p,
{
}

/// The state after pressing the same key `n` times.
pub open spec fn repeat_step(
    k: KeyInput,
    p: PromptModel,
    hist: Seq<Seq<char>>,
    entries: Seq<Seq<char>>,
    n: nat,
) -> PromptModel
    decreases n,
{
    if n == 0 {
        p
    } else {
        repeat_step(k, editor_step(k, p, hist, entries), hist, entries, (n - 1) as nat)
    }
}

/// The Up key without Control.
pub open spec fn up_key() -> KeyInput {
    KeyInput { key: Key::Up, ctrl: false }
}

/// The Down key without Control.
pub open spec fn down_key() -> KeyInput {
    KeyInput { key: Key::Down, ctrl: false }
}

proof fn lemma_ups(p: PromptModel, hist: Seq<Seq<char>>, entries: Seq<Seq<char>>, n: nat)
    requires
        0 <= p.history_idx,
        p.history_idx + n <= hist.len(),
    ensures
        ({
            let r = repeat_step(up_key(), p, hist, entries, n);
            &&& r.history_idx == p.history_idx + n
            &&& r.saved_input == if n >= 1 && p.history_idx == 0 {
                p.input
            } else {
                p.saved_input
            }
            &&& r.input == if n == 0 {
                p.input
            } else {
                hist[hist.len() - (p.history_idx + n)]
            }
        }),
    decreases n,
{
    if n >= 1 {
        let q = editor_step(up_key(), p, hist, entries);
        assert(q.history_idx == p.history_idx + 1);
        lemma_ups(q, hist, entries, (n - 1) as nat);
    }
}

proof fn lemma_downs(p: PromptModel, hist: Seq<Seq<char>>, entries: Seq<Seq<char>>, n: nat)
    requires
        n <= p.history_idx,
        p.history_idx <= hist.len(),
    ensures
        ({
            let r = repeat_step(down_key(), p, hist, entries, n);
            &&& r.history_idx == p.history_idx - n
            &&& r.saved_input == p.saved_input
            &&& r.input == if n == 0 {
                p.input
            } else if p.history_idx - n == 0 {
                p.saved_input
            } else {
                hist[hist.len() - (p.history_idx - n)]
            }
        }),
    decreases n,
{
    if n >= 1 {
        let q = editor_step(down_key(), p, hist, entries);
        assert(q.history_idx == p.history_idx - 1);
        lemma_downs(q, hist, entries, (n - 1) as nat);
    }
}

/// History browsing round trip: from a state not yet browsing, pressing Up
/// `n` times and then Down `n` times restores the original line exactly,
/// for any `n` up to the history's length.
pub proof fn lemma_history_round_trip(
    p: PromptModel,
    hist: Seq<Seq<char>>,
    entries: Seq<Seq<char>>,
    n: nat,
)
    requires
        p.history_idx == 0,
        n <= hist.len(),
    ensures
        repeat_step(
            down_key(),
            repeat_step(up_key(), p, hist, entries, n),
            hist,
            entries,
            n,
        ).input == p.input,
{
    lemma_ups(p, hist, entries, n);
    let q = repeat_step(up_key(), p, hist, entries, n);
    lemma_downs(q, hist, entries, n);
}

} // verus!
