use vstd::prelude::*;

use crate::keys::{Key, KeyPress};
use crate::text::{
    chars_of, lemma_word_boundary_bounds, string_of, word_boundary_left, word_boundary_right,
    word_left, word_right,
};

verus! {

/// A gap between keystrokes longer than this (in milliseconds) ends a paste burst.
pub const STALE_MS: u64 = 30;

/// A keystroke that follows the previous one by less than this (in milliseconds) is fast.
pub const BURST_MS: u64 = 10;

/// A fast keystroke starts a paste burst once more than this many characters were typed.
pub const BURST_AFTER: u64 = 5;

/// What the caller does after an event has been applied.
#[derive(Clone, Copy, Debug, PartialEq, Eq, Structural)]
pub enum EditAction {
    /// Keep reading events; redraw the prompt and the buffer.
    Continue,
    /// Clear the screen, then redraw the prompt and the buffer.
    ClearScreen,
    /// The line is finished: the buffer is the result.
    Submit,
    /// Editing was cancelled: there is no result.
    Cancel,
}

/// The state of one editing session, as mathematical values.
pub struct EditorModel {
    /// The characters of the line.
    pub buffer: Seq<char>,
    /// The cursor, as an index into `buffer`.
    pub cursor: nat,
    /// How far back in history the buffer was recalled from (`None`: no recall).
    pub recall: Option<nat>,
    /// When the last character was typed, in milliseconds.
    pub last_ms: nat,
    /// How many characters were typed so far.
    pub typed: nat,
    /// Whether the keystrokes currently look like a paste.
    pub in_paste: bool,
}

impl EditorModel {
    pub open spec fn wf(self) -> bool {
        &&& self.cursor <= self.buffer.len()
        &&& self.buffer.len() <= usize::MAX
        &&& self.last_ms <= u64::MAX
        &&& self.typed <= u64::MAX
        &&& self.recall matches Some(p) ==> p <= usize::MAX
    }

    /// The same state with another buffer and cursor.
    pub open spec fn with_text(self, buffer: Seq<char>, cursor: nat) -> EditorModel {
        EditorModel { buffer, cursor, ..self }
    }
}

/// Milliseconds from the last typed character to `now` (0 if the clock went back).
pub open spec fn gap(m: EditorModel, now: u64) -> nat {
    if now >= m.last_ms {
        (now - m.last_ms) as nat
    } else {
        0
    }
}

/// The paste flag drops once the keyboard was quiet for longer than the stale threshold.
pub open spec fn after_gap(m: EditorModel, now: u64) -> EditorModel {
    EditorModel { in_paste: m.in_paste && gap(m, now) <= STALE_MS, ..m }
}

/// Whether one more character fits in a buffer that the machine can index.
pub open spec fn has_room(m: EditorModel) -> bool {
    m.buffer.len() < usize::MAX
}

/// The character `c` inserted at the cursor, which moves past it (if it fits).
pub open spec fn insert_at_cursor(m: EditorModel, c: char) -> EditorModel {
    if has_room(m) {
        m.with_text(m.buffer.insert(m.cursor as int, c), m.cursor + 1)
    } else {
        m
    }
}

/// A character typed at `now`: inserted at the cursor, and counted for the paste timing.
pub open spec fn type_char(m: EditorModel, c: char, now: u64) -> EditorModel {
    EditorModel {
        buffer: insert_at_cursor(m, c).buffer,
        cursor: insert_at_cursor(m, c).cursor,
        last_ms: now as nat,
        typed: if m.typed < u64::MAX { m.typed + 1 } else { m.typed },
        in_paste: m.in_paste || (m.typed > BURST_AFTER && gap(m, now) < BURST_MS),
        ..m
    }
}

/// A newline inserted at the cursor, as Enter does inside a paste.
pub open spec fn insert_newline(m: EditorModel) -> EditorModel {
    insert_at_cursor(m, '\n')
}

pub open spec fn move_left(m: EditorModel) -> EditorModel {
    if m.cursor > 0 {
        m.with_text(m.buffer, (m.cursor - 1) as nat)
    } else {
        m
    }
}

pub open spec fn move_right(m: EditorModel) -> EditorModel {
    if m.cursor < m.buffer.len() {
        m.with_text(m.buffer, m.cursor + 1)
    } else {
        m
    }
}

pub open spec fn move_word_left(m: EditorModel) -> EditorModel {
    m.with_text(m.buffer, word_boundary_left(m.buffer, m.cursor as int) as nat)
}

pub open spec fn move_word_right(m: EditorModel) -> EditorModel {
    m.with_text(m.buffer, word_boundary_right(m.buffer, m.cursor as int) as nat)
}

/// Backspace: the character left of the cursor goes.
pub open spec fn backspace(m: EditorModel) -> EditorModel {
    if m.cursor > 0 {
        m.with_text(m.buffer.remove(m.cursor - 1), (m.cursor - 1) as nat)
    } else {
        m
    }
}

/// Delete: the character at the cursor goes.
pub open spec fn delete(m: EditorModel) -> EditorModel {
    if m.cursor < m.buffer.len() {
        m.with_text(m.buffer.remove(m.cursor as int), m.cursor)
    } else {
        m
    }
}

/// The previous word goes: the whitespace left of the cursor and the word before it.
pub open spec fn delete_word(m: EditorModel) -> EditorModel {
    let start = word_boundary_left(m.buffer, m.cursor as int);
    m.with_text(
        m.buffer.subrange(0, start) + m.buffer.subrange(m.cursor as int, m.buffer.len() as int),
        start as nat,
    )
}

/// The text left of the cursor, which a completion is asked for.
pub open spec fn prefix(m: EditorModel) -> Seq<char> {
    m.buffer.subrange(0, m.cursor as int)
}

/// A completion replaces the text left of the cursor; the cursor ends after it.
pub open spec fn complete(m: EditorModel, suggestion: Option<Seq<char>>) -> EditorModel {
    match suggestion {
        Some(s) => m.with_text(
            s + m.buffer.subrange(m.cursor as int, m.buffer.len() as int),
            s.len(),
        ),
        None => m,
    }
}

/// The history offset that Up reads (`None`: there is none further back).
pub open spec fn older_offset(m: EditorModel) -> Option<nat> {
    match m.recall {
        None => Some(0),
        Some(p) => if p < usize::MAX {
            Some(p + 1)
        } else {
            None
        },
    }
}

/// The history offset that Down reads (`None`: Down leaves the history).
pub open spec fn newer_offset(m: EditorModel) -> Option<nat> {
    match m.recall {
        Some(p) => if p > 0 {
            Some((p - 1) as nat)
        } else {
            None
        },
        None => None,
    }
}

/// A history entry loaded into the buffer, with the cursor at its end.
pub open spec fn load(m: EditorModel, entry: Seq<char>, offset: nat) -> EditorModel {
    EditorModel { buffer: entry, cursor: entry.len(), recall: Some(offset), ..m }
}

/// Up, given the entry at `older_offset`: it is loaded if present, else nothing changes.
pub open spec fn recall_older(m: EditorModel, entry: Option<Seq<char>>) -> EditorModel {
    match (older_offset(m), entry) {
        (Some(p), Some(e)) => load(m, e, p),
        _ => m,
    }
}

/// Down, given the entry at `newer_offset`: it is loaded if present; past the newest entry
/// the buffer is emptied and the recall ends.
pub open spec fn recall_newer(m: EditorModel, entry: Option<Seq<char>>) -> EditorModel {
    match (newer_offset(m), entry) {
        (Some(p), Some(e)) => load(m, e, p),
        _ => EditorModel { buffer: Seq::empty(), cursor: 0, recall: None, ..m },
    }
}

/// One event applied to the state. `answer` is what the history (for Up and Down) or the
/// completion (for Tab) returned; `has_history` and `has_completion` say whether they exist.
pub open spec fn edit_step(
    m: EditorModel,
    k: KeyPress,
    now: u64,
    has_history: bool,
    has_completion: bool,
    answer: Option<Seq<char>>,
) -> (EditorModel, EditAction) {
    let g = after_gap(m, now);
    match k.code {
        Key::Char(c) => if k.ctrl && c == 'c' {
            (g, EditAction::Cancel)
        } else if k.ctrl && c == 'w' {
            (delete_word(g), EditAction::Continue)
        } else if k.ctrl && c == 'l' {
            (g, EditAction::ClearScreen)
        } else {
            (type_char(g, c, now), EditAction::Continue)
        },
        Key::Backspace => if k.ctrl {
            (delete_word(g), EditAction::Continue)
        } else {
            (backspace(g), EditAction::Continue)
        },
        Key::Delete => (delete(g), EditAction::Continue),
        Key::Left => if k.ctrl {
            (move_word_left(g), EditAction::Continue)
        } else {
            (move_left(g), EditAction::Continue)
        },
        Key::Right => if k.ctrl {
            (move_word_right(g), EditAction::Continue)
        } else {
            (move_right(g), EditAction::Continue)
        },
        Key::Tab => if has_completion {
            (complete(g, answer), EditAction::Continue)
        } else {
            (g, EditAction::Continue)
        },
        Key::Up => if has_history {
            (recall_older(g, answer), EditAction::Continue)
        } else {
            (g, EditAction::Continue)
        },
        Key::Down => if has_history {
            (recall_newer(g, answer), EditAction::Continue)
        } else {
            (g, EditAction::Continue)
        },
        Key::Enter => if g.in_paste {
            (insert_newline(g), EditAction::Continue)
        } else {
            (g, EditAction::Submit)
        },
        _ => (g, EditAction::Continue),
    }
}

/// The view of an optional string.
pub open spec fn opt_chars(s: Option<String>) -> Option<Seq<char>> {
    match s {
        Some(t) => Some(t@),
        None => None,
    }
}

/// What the editor needs from its collaborators before an event can be applied.
#[derive(Debug)]
pub enum Query {
    /// Nothing: the event is applied as it is.
    Nothing,
    /// The history entry at this offset (0 is the most recent).
    History(usize),
    /// A completion of this text, which stands left of the cursor.
    Completion(String),
}

/// The state of one editing session: the line, its cursor, the history recall and the
/// timing that tells pasted text from typing.
pub struct LineEditor {
    buffer: Vec<char>,
    cursor: usize,
    recall: Option<usize>,
    last_ms: u64,
    typed: u64,
    in_paste: bool,
}

impl View for LineEditor {
    type V = EditorModel;

    closed spec fn view(&self) -> EditorModel {
        EditorModel {
            buffer: self.buffer@,
            cursor: self.cursor as nat,
            recall: match self.recall {
                Some(p) => Some(p as nat),
                None => None,
            },
            last_ms: self.last_ms as nat,
            typed: self.typed as nat,
            in_paste: self.in_paste,
        }
    }
}

impl LineEditor {
    pub open spec fn wf(&self) -> bool {
        self@.wf()
    }

    /// An empty line, with the clock at `now_ms`.
    pub fn new(now_ms: u64) -> (r: LineEditor)
        ensures
            r.wf(),
            r@ == (EditorModel {
                buffer: Seq::empty(),
                cursor: 0,
                recall: None,
                last_ms: now_ms as nat,
                typed: 0,
                in_paste: false,
            }),
    {
        LineEditor {
            buffer: Vec::new(),
            cursor: 0,
            recall: None,
            last_ms: now_ms,
            typed: 0,
            in_paste: false,
        }
    }

    /// The line as it stands.
    pub fn text(&self) -> (r: String)
        ensures
            r@ == self@.buffer,
    {
        string_of(self.buffer.as_slice())
    }

    /// The cursor, as an index into the line.
    pub fn cursor(&self) -> (r: usize)
        ensures
            r == self@.cursor,
    {
        self.cursor
    }

    /// Whether the recent keystrokes look like a paste.
    pub fn in_paste(&self) -> (r: bool)
        ensures
            r == self@.in_paste,
    {
        self.in_paste
    }

    /// What must be asked of the history or the completion before `k` can be applied.
    pub fn query(&self, k: KeyPress, has_history: bool, has_completion: bool) -> (r: Query)
        requires
            self.wf(),
        ensures
            k.code == Key::Up && has_history && older_offset(self@) is Some ==> r == Query::History(
                older_offset(self@)->0 as usize,
            ),
            k.code == Key::Down && has_history && newer_offset(self@) is Some ==> r
                == Query::History(newer_offset(self@)->0 as usize),
            k.code == Key::Tab && has_completion ==> (r matches Query::Completion(p) && p@ == prefix(
                self@,
            )),
            !(k.code == Key::Up && has_history && older_offset(self@) is Some) && !(k.code
                == Key::Down && has_history && newer_offset(self@) is Some) && !(k.code == Key::Tab
                && has_completion) ==> r == Query::Nothing,
    {
        match k.code {
            Key::Up => {
                if has_history {
                    match self.recall {
                        None => Query::History(0),
                        Some(p) => if p < usize::MAX {
                            Query::History(p + 1)
                        } else {
                            Query::Nothing
                        },
                    }
                } else {
                    Query::Nothing
                }
            },
            Key::Down => {
                if has_history {
                    match self.recall {
                        Some(p) => if p > 0 {
                            Query::History(p - 1)
                        } else {
                            Query::Nothing
                        },
                        None => Query::Nothing,
                    }
                } else {
                    Query::Nothing
                }
            },
            Key::Tab => {
                if has_completion {
                    Query::Completion(string_of(&self.buffer.as_slice()[0..self.cursor]))
                } else {
                    Query::Nothing
                }
            },
            _ => Query::Nothing,
        }
    }

    /// Applies the quiet-time rule of the paste heuristic.
    fn note_gap(&mut self, now: u64) -> (g: u64)
        requires
            old(self).wf(),
        ensures
            final(self).wf(),
            final(self)@ == after_gap(old(self)@, now),
            g == gap(old(self)@, now),
    {
        let g = if now >= self.last_ms {
            now - self.last_ms
        } else {
            0
        };
        if g > STALE_MS {
            self.in_paste = false;
        }
        g
    }

    fn insert_at_cursor(&mut self, c: char)
        requires
            old(self).wf(),
        ensures
            final(self).wf(),
            final(self)@ == insert_at_cursor(old(self)@, c),
    {
        if self.buffer.len() < usize::MAX {
            self.buffer.insert(self.cursor, c);
            self.cursor = self.cursor + 1;
        }
    }

    fn type_char(&mut self, c: char, now: u64, g: u64)
        requires
            old(self).wf(),
            g == gap(old(self)@, now),
        ensures
            final(self).wf(),
            final(self)@ == type_char(old(self)@, c, now),
    {
        if self.typed > BURST_AFTER && g < BURST_MS {
            self.in_paste = true;
        }
        self.last_ms = now;
        if self.typed < u64::MAX {
            self.typed = self.typed + 1;
        }
        self.insert_at_cursor(c);
    }

    fn move_left(&mut self)
        requires
            old(self).wf(),
        ensures
            final(self).wf(),
            final(self)@ == move_left(old(self)@),
    {
        if self.cursor > 0 {
            self.cursor = self.cursor - 1;
        }
    }

    fn move_right(&mut self)
        requires
            old(self).wf(),
        ensures
            final(self).wf(),
            final(self)@ == move_right(old(self)@),
    {
        if self.cursor < self.buffer.len() {
            self.cursor = self.cursor + 1;
        }
    }

    fn move_word_left(&mut self)
        requires
            old(self).wf(),
        ensures
            final(self).wf(),
            final(self)@ == move_word_left(old(self)@),
    {
        self.cursor = word_left(self.buffer.as_slice(), self.cursor);
    }

    fn move_word_right(&mut self)
        requires
            old(self).wf(),
        ensures
            final(self).wf(),
            final(self)@ == move_word_right(old(self)@),
    {
        self.cursor = word_right(self.buffer.as_slice(), self.cursor);
    }

    fn backspace(&mut self)
        requires
            old(self).wf(),
        ensures
            final(self).wf(),
            final(self)@ == backspace(old(self)@),
    {
        if self.cursor > 0 {
            self.buffer.remove(self.cursor - 1);
            self.cursor = self.cursor - 1;
        }
    }

    fn delete(&mut self)
        requires
            old(self).wf(),
        ensures
            final(self).wf(),
            final(self)@ == delete(old(self)@),
    {
        if self.cursor < self.buffer.len() {
            self.buffer.remove(self.cursor);
        }
    }

    fn delete_word(&mut self)
        requires
            old(self).wf(),
        ensures
            final(self).wf(),
            final(self)@ == delete_word(old(self)@),
    {
        let ghost before = self.buffer@;
        let start = word_left(self.buffer.as_slice(), self.cursor);
        let mut tail = self.buffer.split_off(self.cursor);
        self.buffer.truncate(start);
        self.buffer.append(&mut tail);
        self.cursor = start;
        assert(self.buffer@.len() == self.buffer.len());
        assert(self.buffer@ =~= before.subrange(0, start as int) + before.subrange(
            old(self).cursor as int,
            before.len() as int,
        ));
    }

    fn complete(&mut self, suggestion: Option<String>)
        requires
            old(self).wf(),
        ensures
            final(self).wf(),
            final(self)@ == complete(old(self)@, opt_chars(suggestion)),
    {
        if let Some(s) = suggestion {
            let mut head = chars_of(s.as_str());
            let n = head.len();
            let mut tail = self.buffer.split_off(self.cursor);
            head.append(&mut tail);
            self.buffer = head;
            self.cursor = n;
            assert(self.buffer@.len() == self.buffer.len());
        }
    }

    fn load(&mut self, entry: String, offset: usize)
        requires
            old(self).wf(),
        ensures
            final(self).wf(),
            final(self)@ == load(old(self)@, entry@, offset as nat),
    {
        self.buffer = chars_of(entry.as_str());
        self.cursor = self.buffer.len();
        self.recall = Some(offset);
    }

    fn recall_older(&mut self, entry: Option<String>)
        requires
            old(self).wf(),
        ensures
            final(self).wf(),
            final(self)@ == recall_older(old(self)@, opt_chars(entry)),
    {
        let offset = match self.recall {
            None => Some(0),
            Some(p) => if p < usize::MAX {
                Some(p + 1)
            } else {
                None
            },
        };
        match (offset, entry) {
            (Some(p), Some(e)) => self.load(e, p),
            _ => {},
        }
    }

    fn recall_newer(&mut self, entry: Option<String>)
        requires
            old(self).wf(),
        ensures
            final(self).wf(),
            final(self)@ == recall_newer(old(self)@, opt_chars(entry)),
    {
        let offset = match self.recall {
            Some(p) => if p > 0 {
                Some(p - 1)
            } else {
                None
            },
            None => None,
        };
        match (offset, entry) {
            (Some(p), Some(e)) => self.load(e, p),
            _ => {
                self.buffer = Vec::new();
                self.cursor = 0;
                self.recall = None;
            },
        }
    }

    /// Applies one event at time `now_ms`. `answer` is what the collaborator named by `query`
    /// returned for this state (ignored where `query` asks nothing).
    pub fn apply_key(
        &mut self,
        k: KeyPress,
        now_ms: u64,
        has_history: bool,
        has_completion: bool,
        answer: Option<String>,
    ) -> (r: EditAction)
        requires
            old(self).wf(),
        ensures
            final(self).wf(),
            (final(self)@, r) == edit_step(
                old(self)@,
                k,
                now_ms,
                has_history,
                has_completion,
                opt_chars(answer),
            ),
    {
        let g = self.note_gap(now_ms);
        match k.code {
            Key::Char(c) => {
                if k.ctrl && c == 'c' {
                    EditAction::Cancel
                } else if k.ctrl && c == 'w' {
                    self.delete_word();
                    EditAction::Continue
                } else if k.ctrl && c == 'l' {
                    EditAction::ClearScreen
                } else {
                    self.type_char(c, now_ms, g);
                    EditAction::Continue
                }
            },
            Key::Backspace => {
                if k.ctrl {
                    self.delete_word();
                } else {
                    self.backspace();
                }
                EditAction::Continue
            },
            Key::Delete => {
                self.delete();
                EditAction::Continue
            },
            Key::Left => {
                if k.ctrl {
                    self.move_word_left();
                } else {
                    self.move_left();
                }
                EditAction::Continue
            },
            Key::Right => {
                if k.ctrl {
                    self.move_word_right();
                } else {
                    self.move_right();
                }
                EditAction::Continue
            },
            Key::Tab => {
                if has_completion {
                    self.complete(answer);
                }
                EditAction::Continue
            },
            Key::Up => {
                if has_history {
                    self.recall_older(answer);
                }
                EditAction::Continue
            },
            Key::Down => {
                if has_history {
                    self.recall_newer(answer);
                }
                EditAction::Continue
            },
            Key::Enter => {
                if self.in_paste {
                    self.insert_at_cursor('\n');
                    EditAction::Continue
                } else {
                    EditAction::Submit
                }
            },
            _ => EditAction::Continue,
        }
    }
}

/// The state after `events` (each a key and its time), with neither history nor completion.
pub open spec fn replay(m: EditorModel, events: Seq<(KeyPress, u64)>) -> EditorModel
    decreases events.len(),
{
    if events.len() == 0 {
        m
    } else {
        replay(edit_step(m, events[0].0, events[0].1, false, false, None).0, events.drop_first())
    }
}

/// An event that types a character: a character key without Control.
pub open spec fn is_typing(e: (KeyPress, u64)) -> bool {
    e.0.code is Char && !e.0.ctrl
}

/// The characters that typing events type.
pub open spec fn typed_text(events: Seq<(KeyPress, u64)>) -> Seq<char> {
    events.map_values(|e: (KeyPress, u64)| e.0.code->Char_0)
}

/// Typing characters with the cursor at the end of the line appends them in order and
/// leaves the cursor at the end.
pub proof fn lemma_typing_appends(m: EditorModel, events: Seq<(KeyPress, u64)>)
    requires
        m.wf(),
        m.cursor == m.buffer.len(),
        m.buffer.len() + events.len() < usize::MAX,
        forall|i: int| 0 <= i < events.len() ==> is_typing(#[trigger] events[i]),
    ensures
        replay(m, events).buffer == m.buffer + typed_text(events),
        replay(m, events).cursor == replay(m, events).buffer.len(),
        replay(m, events).wf(),
    decreases events.len(),
{
    if events.len() == 0 {
        assert(m.buffer + typed_text(events) =~= m.buffer);
    } else {
        let e = events[0];
        assert(is_typing(e));
        let c = e.0.code->Char_0;
        let next = edit_step(m, e.0, e.1, false, false, None).0;
        assert(next.buffer =~= m.buffer.push(c));
        let rest = events.drop_first();
        assert forall|i: int| 0 <= i < rest.len() implies is_typing(#[trigger] rest[i]) by {
            assert(rest[i] == events[i + 1]);
        }
        lemma_typing_appends(next, rest);
        assert(typed_text(events) =~= seq![c] + typed_text(rest));
        assert(m.buffer + typed_text(events) =~= m.buffer.push(c) + typed_text(rest));
    }
}

/// A fresh editor that is only typed into holds exactly the typed characters, with the
/// cursor after them.
pub proof fn lemma_typing_from_empty(now_ms: u64, events: Seq<(KeyPress, u64)>)
    requires
        events.len() < usize::MAX,
        forall|i: int| 0 <= i < events.len() ==> is_typing(#[trigger] events[i]),
    ensures
        ({
            let start = EditorModel {
                buffer: Seq::empty(),
                cursor: 0,
                recall: None,
                last_ms: now_ms as nat,
                typed: 0,
                in_paste: false,
            };
            &&& replay(start, events).buffer == typed_text(events)
            &&& replay(start, events).cursor == typed_text(events).len()
            &&& replay(start, events).wf()
        }),
{
    let start = EditorModel {
        buffer: Seq::empty(),
        cursor: 0,
        recall: None,
        last_ms: now_ms as nat,
        typed: 0,
        in_paste: false,
    };
    lemma_typing_appends(start, events);
    assert(start.buffer + typed_text(events) =~= typed_text(events));
}

/// Left and Right, with or without Control, keep the cursor within the line.
pub proof fn lemma_arrows_in_bounds(
    m: EditorModel,
    k: KeyPress,
    now: u64,
    has_history: bool,
    has_completion: bool,
    answer: Option<Seq<char>>,
)
    requires
        m.wf(),
        k.code == Key::Left || k.code == Key::Right,
    ensures
        edit_step(m, k, now, has_history, has_completion, answer).0.cursor <= edit_step(
            m,
            k,
            now,
            has_history,
            has_completion,
            answer,
        ).0.buffer.len(),
        edit_step(m, k, now, has_history, has_completion, answer).0.buffer == m.buffer,
{
    lemma_word_boundary_bounds(m.buffer, m.cursor as int);
}

/// Events applied one list after another are the events of the joined list.
pub proof fn lemma_replay_append(
    m: EditorModel,
    a: Seq<(KeyPress, u64)>,
    b: Seq<(KeyPress, u64)>,
)
    ensures
        replay(m, a + b) == replay(replay(m, a), b),
    decreases a.len(),
{
    if a.len() > 0 {
        let next = edit_step(m, a[0].0, a[0].1, false, false, None).0;
        assert((a + b).drop_first() =~= a.drop_first() + b);
        assert((a + b)[0] == a[0]);
        lemma_replay_append(next, a.drop_first(), b);
    } else {
        assert(a + b =~= b);
    }
}

/// The time before event `i`: the start for the first, else the previous event's time.
pub open spec fn time_before(start: nat, events: Seq<(KeyPress, u64)>, i: int) -> nat {
    if i == 0 {
        start
    } else {
        events[i - 1].1 as nat
    }
}

/// Each event comes at least the burst threshold after the one before it (the first after
/// `start`): keystrokes a person types, not a paste.
pub open spec fn unhurried(start: nat, events: Seq<(KeyPress, u64)>) -> bool {
    forall|i: int| 0 <= i < events.len() ==> #[trigger] events[i].1 >= time_before(start, events, i) + BURST_MS
}

/// Unhurried typing never looks like a paste.
pub proof fn lemma_unhurried_typing(m: EditorModel, events: Seq<(KeyPress, u64)>)
    requires
        !m.in_paste,
        unhurried(m.last_ms, events),
        forall|i: int| 0 <= i < events.len() ==> is_typing(#[trigger] events[i]),
    ensures
        !replay(m, events).in_paste,
    decreases events.len(),
{
    if events.len() > 0 {
        let e = events[0];
        assert(is_typing(e));
        assert(e.1 >= m.last_ms + BURST_MS);
        let next = edit_step(m, e.0, e.1, false, false, None).0;
        let rest = events.drop_first();
        assert(next.last_ms == e.1);
        assert forall|i: int| 0 <= i < rest.len() implies is_typing(#[trigger] rest[i]) by {
            assert(rest[i] == events[i + 1]);
        }
        assert forall|i: int| 0 <= i < rest.len() implies #[trigger] rest[i].1 >= time_before(
            next.last_ms,
            rest,
            i,
        ) + BURST_MS by {
            assert(rest[i] == events[i + 1]);
            assert(events[i + 1].1 >= time_before(m.last_ms, events, i + 1) + BURST_MS);
            if i > 0 {
                assert(rest[i - 1] == events[i]);
            }
        }
        lemma_unhurried_typing(next, rest);
    }
}

/// The editor that a session starts with.
pub open spec fn fresh(now_ms: u64) -> EditorModel {
    EditorModel {
        buffer: Seq::empty(),
        cursor: 0,
        recall: None,
        last_ms: now_ms as nat,
        typed: 0,
        in_paste: false,
    }
}

/// Unhurried typing followed by Enter submits exactly the typed characters.
pub proof fn lemma_typing_then_enter(now_ms: u64, events: Seq<(KeyPress, u64)>, t: u64)
    requires
        events.len() < usize::MAX,
        unhurried(now_ms as nat, events),
        forall|i: int| 0 <= i < events.len() ==> is_typing(#[trigger] events[i]),
    ensures
        ({
            let s = edit_step(
                replay(fresh(now_ms), events),
                KeyPress { code: Key::Enter, ctrl: false },
                t,
                false,
                false,
                None,
            );
            &&& s.1 == EditAction::Submit
            &&& s.0.buffer == typed_text(events)
        }),
{
    lemma_typing_from_empty(now_ms, events);
    lemma_unhurried_typing(fresh(now_ms), events);
}

/// Typing then Backspace leaves the typed characters but the last.
pub proof fn lemma_typing_then_backspace(now_ms: u64, events: Seq<(KeyPress, u64)>, t: u64)
    requires
        0 < events.len() < usize::MAX,
        forall|i: int| 0 <= i < events.len() ==> is_typing(#[trigger] events[i]),
    ensures
        edit_step(
            replay(fresh(now_ms), events),
            KeyPress { code: Key::Backspace, ctrl: false },
            t,
            false,
            false,
            None,
        ).0.buffer == typed_text(events).drop_last(),
{
    lemma_typing_from_empty(now_ms, events);
    let m = replay(fresh(now_ms), events);
    assert(m.buffer.remove(m.cursor - 1) =~= typed_text(events).drop_last());
}

/// An event that is the plain key `code`.
pub open spec fn is_plain(e: (KeyPress, u64), code: Key) -> bool {
    e.0.code == code && !e.0.ctrl
}

/// A run of plain Left keys moves the cursor back by its length, stopping at the start.
pub proof fn lemma_left_run(m: EditorModel, events: Seq<(KeyPress, u64)>)
    requires
        m.wf(),
        forall|i: int| 0 <= i < events.len() ==> is_plain(#[trigger] events[i], Key::Left),
    ensures
        replay(m, events).buffer == m.buffer,
        replay(m, events).cursor == if m.cursor >= events.len() {
            (m.cursor - events.len()) as nat
        } else {
            0
        },
        replay(m, events).wf(),
    decreases events.len(),
{
    if events.len() > 0 {
        assert(is_plain(events[0], Key::Left));
        let next = edit_step(m, events[0].0, events[0].1, false, false, None).0;
        let rest = events.drop_first();
        assert forall|i: int| 0 <= i < rest.len() implies is_plain(#[trigger] rest[i], Key::Left) by {
            assert(rest[i] == events[i + 1]);
        }
        lemma_left_run(next, rest);
    }
}

/// A run of plain Right keys moves the cursor on by its length, stopping at the end.
pub proof fn lemma_right_run(m: EditorModel, events: Seq<(KeyPress, u64)>)
    requires
        m.wf(),
        forall|i: int| 0 <= i < events.len() ==> is_plain(#[trigger] events[i], Key::Right),
    ensures
        replay(m, events).buffer == m.buffer,
        replay(m, events).cursor == if m.cursor + events.len() <= m.buffer.len() {
            m.cursor + events.len()
        } else {
            m.buffer.len()
        },
        replay(m, events).wf(),
    decreases events.len(),
{
    if events.len() > 0 {
        assert(is_plain(events[0], Key::Right));
        let next = edit_step(m, events[0].0, events[0].1, false, false, None).0;
        let rest = events.drop_first();
        assert forall|i: int| 0 <= i < rest.len() implies is_plain(#[trigger] rest[i], Key::Right) by {
            assert(rest[i] == events[i + 1]);
        }
        lemma_right_run(next, rest);
    }
}

/// After typing, `k` Lefts and then `j` Rights, a typed character lands at position
/// `min(n, max(0, n - k) + j)` of the `n` typed characters.
pub proof fn lemma_arrows_then_insert(
    now_ms: u64,
    typing: Seq<(KeyPress, u64)>,
    lefts: Seq<(KeyPress, u64)>,
    rights: Seq<(KeyPress, u64)>,
    x: char,
    t: u64,
)
    requires
        typing.len() + 1 < usize::MAX,
        forall|i: int| 0 <= i < typing.len() ==> is_typing(#[trigger] typing[i]),
        forall|i: int| 0 <= i < lefts.len() ==> is_plain(#[trigger] lefts[i], Key::Left),
        forall|i: int| 0 <= i < rights.len() ==> is_plain(#[trigger] rights[i], Key::Right),
    ensures
        ({
            let n = typing.len() as int;
            let back = if n >= lefts.len() {
                n - lefts.len()
            } else {
                0
            };
            let p = if back + rights.len() <= n {
                back + rights.len()
            } else {
                n
            };
            let cs = typed_text(typing);
            let m = replay(fresh(now_ms), typing + lefts + rights);
            edit_step(m, KeyPress { code: Key::Char(x), ctrl: false }, t, false, false, None).0.buffer
                == cs.subrange(0, p) + seq![x] + cs.subrange(p, n)
        }),
{
    let start = fresh(now_ms);
    lemma_typing_from_empty(now_ms, typing);
    lemma_replay_append(start, typing + lefts, rights);
    lemma_replay_append(start, typing, lefts);
    let a = replay(start, typing);
    assert(a.wf());
    lemma_left_run(a, lefts);
    let b = replay(a, lefts);
    lemma_right_run(b, rights);
    let m = replay(b, rights);
    let cs = typed_text(typing);
    assert(m.buffer.insert(m.cursor as int, x) =~= cs.subrange(0, m.cursor as int) + seq![x]
        + cs.subrange(m.cursor as int, cs.len() as int));
}

} // verus!
