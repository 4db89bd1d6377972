use vstd::prelude::*;

use crate::editor::{
    edit_step, newer_offset, older_offset, opt_chars, EditAction, EditorModel, LineEditor,
    Query,
};
use crate::history::History;
use crate::keys::{Key, KeyPress};

verus! {

/// A source of completions: given the text left of the cursor, a replacement for it.
pub trait Completion {
    fn get(&self, input: &str) -> Option<String>;
}

/// The line at offset `p` of `lines`, if there is one.
pub open spec fn entry_at(lines: Seq<Seq<char>>, p: nat) -> Option<Seq<char>> {
    if p < lines.len() {
        Some(lines[p as int])
    } else {
        None
    }
}

/// A line-editing session's configuration: the prompt, and optionally a history and a
/// completion source that the session consults.
pub struct ReadLine<'a, H: History, C: Completion> {
    prompt: String,
    history: Option<&'a mut H>,
    completion: Option<&'a C>,
}

impl<'a, H: History, C: Completion> ReadLine<'a, H, C> {
    /// An empty prompt, with no history and no completion.
    pub fn new() -> (r: Self)
        ensures
            r.prompt_spec() == Seq::<char>::empty(),
            !r.has_history(),
            !r.has_completion(),
            r.history_lines() == Seq::<Seq<char>>::empty(),
    {
        ReadLine { prompt: String::new(), history: None, completion: None }
    }

    pub closed spec fn prompt_spec(&self) -> Seq<char> {
        self.prompt@
    }

    pub closed spec fn has_history(&self) -> bool {
        self.history is Some
    }

    pub closed spec fn has_completion(&self) -> bool {
        self.completion is Some
    }

    /// The lines of the history (none without one).
    pub closed spec fn history_lines(&self) -> Seq<Seq<char>> {
        match self.history {
            Some(h) => (*h).lines(),
            None => Seq::empty(),
        }
    }

    /// What the history answers before `k` is applied to `m`: the entry that Up or Down
    /// recalls (the completion's answer to Tab is left open).
    pub open spec fn answer_for(&self, m: EditorModel, k: KeyPress) -> Option<Seq<char>> {
        match k.code {
            Key::Up => match older_offset(m) {
                Some(p) => entry_at(self.history_lines(), p),
                None => None,
            },
            Key::Down => match newer_offset(m) {
                Some(p) => entry_at(self.history_lines(), p),
                None => None,
            },
            _ => None,
        }
    }

    /// The same session with `prompt` (already rendered for the terminal) as its prompt.
    pub fn prompt(self, prompt: &str) -> (r: Self)
        ensures
            r.prompt_spec() == prompt@,
            r.has_history() == self.has_history(),
            r.history_lines() == self.history_lines(),
            r.has_completion() == self.has_completion(),
    {
        ReadLine { prompt: prompt.to_owned(), ..self }
    }

    /// The same session, recalling lines from `history`.
    pub fn history(self, history: &'a mut H) -> (r: Self)
        ensures
            r.prompt_spec() == self.prompt_spec(),
            r.has_history(),
            r.history_lines() == old(history).lines(),
            r.has_completion() == self.has_completion(),
    {
        ReadLine { history: Some(history), ..self }
    }

    /// The same session, completing lines with `completion`.
    pub fn completion(self, completion: &'a C) -> (r: Self)
        ensures
            r.prompt_spec() == self.prompt_spec(),
            r.has_history() == self.has_history(),
            r.history_lines() == self.history_lines(),
            r.has_completion(),
    {
        ReadLine { completion: Some(completion), ..self }
    }

    /// The prompt.
    pub fn prompt_text(&self) -> (r: &str)
        ensures
            r@ == self.prompt_spec(),
    {
        self.prompt.as_str()
    }

    /// Applies one event to `editor`, asking the history or the completion where the event
    /// needs them.
    pub fn step(&self, editor: &mut LineEditor, k: KeyPress, now_ms: u64) -> (r: EditAction)
        requires
            old(editor).wf(),
        ensures
            final(editor).wf(),
            k.code != Key::Tab ==> (final(editor)@, r) == edit_step(
                old(editor)@,
                k,
                now_ms,
                self.has_history(),
                self.has_completion(),
                self.answer_for(old(editor)@, k),
            ),
            k.code == Key::Tab ==> exists|answer: Option<Seq<char>>|
                (final(editor)@, r) == #[trigger] edit_step(
                    old(editor)@,
                    k,
                    now_ms,
                    self.has_history(),
                    self.has_completion(),
                    answer,
                ),
    {
        let has_history = self.history.is_some();
        let has_completion = self.completion.is_some();
        let answer = match editor.query(k, has_history, has_completion) {
            Query::History(pos) => match &self.history {
                Some(h) => h.read(pos),
                None => None,
            },
            Query::Completion(p) => match self.completion {
                Some(c) => c.get(p.as_str()),
                None => None,
            },
            Query::Nothing => None,
        };
        let ghost a = opt_chars(answer);
        proof {
            match k.code {
                Key::Up | Key::Down | Key::Tab => {},
                _ => {
                    assert(edit_step(old(editor)@, k, now_ms, has_history, has_completion, a)
                        == edit_step(
                        old(editor)@,
                        k,
                        now_ms,
                        has_history,
                        has_completion,
                        self.answer_for(old(editor)@, k),
                    ));
                },
            }
        }
        let r = editor.apply_key(k, now_ms, has_history, has_completion, answer);
        assert((editor@, r) == edit_step(
            old(editor)@,
            k,
            now_ms,
            self.has_history(),
            self.has_completion(),
            a,
        ));
        r
    }

    /// Records a finished line in the history, if there is one, as its most recent line.
    pub fn remember(&mut self, line: &str)
        ensures
            old(self).has_history() ==> final(self).history_lines() == seq![line@] + old(self).history_lines(),
            !old(self).has_history() ==> final(self).history_lines() == old(self).history_lines(),
            final(self).prompt_spec() == old(self).prompt_spec(),
            final(self).has_history() == old(self).has_history(),
            final(self).has_completion() == old(self).has_completion(),
    {
        match &mut self.history {
            Some(h) => h.write(line),
            None => {},
        }
    }
}

} // verus!
