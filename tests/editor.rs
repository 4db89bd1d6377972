use chad_llm::editor::{EditAction, LineEditor};
use chad_llm::history::{BasicHistory, History};
use chad_llm::keys::{Key, KeyPress};
use chad_llm::readline::{Completion, ReadLine};

struct Commands;

impl Completion for Commands {
    fn get(&self, input: &str) -> Option<String> {
        if input == "/he" {
            Some("/help".to_string())
        } else {
            None
        }
    }
}

fn plain(code: Key) -> KeyPress {
    KeyPress { code, ctrl: false }
}

fn ctrl(code: Key) -> KeyPress {
    KeyPress { code, ctrl: true }
}

fn type_slowly(ed: &mut LineEditor, text: &str, start_ms: u64) -> u64 {
    let mut t = start_ms;
    for c in text.chars() {
        t += 100;
        let r = ed.apply_key(plain(Key::Char(c)), t, false, false, None);
        assert_eq!(r, EditAction::Continue);
    }
    t
}

#[test]
fn typing_builds_the_buffer_in_order() {
    let mut ed = LineEditor::new(0);
    type_slowly(&mut ed, "héllo wörld", 0);
    assert_eq!(ed.text(), "héllo wörld");
    assert_eq!(ed.cursor(), 11);
}

#[test]
fn arrows_stay_within_the_line() {
    let mut ed = LineEditor::new(0);
    type_slowly(&mut ed, "ab", 0);
    ed.apply_key(plain(Key::Right), 1000, false, false, None);
    assert_eq!(ed.cursor(), 2);
    for _ in 0..5 {
        ed.apply_key(plain(Key::Left), 1000, false, false, None);
    }
    assert_eq!(ed.cursor(), 0);
    ed.apply_key(plain(Key::Right), 1000, false, false, None);
    assert_eq!(ed.cursor(), 1);
}

#[test]
fn ctrl_w_deletes_the_previous_word() {
    let mut ed = LineEditor::new(0);
    type_slowly(&mut ed, "foo bar ", 0);
    ed.apply_key(ctrl(Key::Char('w')), 5000, false, false, None);
    assert_eq!(ed.text(), "foo ");
    assert_eq!(ed.cursor(), 4);
}

#[test]
fn ctrl_backspace_deletes_the_previous_word() {
    let mut ed = LineEditor::new(0);
    type_slowly(&mut ed, "one two", 0);
    ed.apply_key(ctrl(Key::Backspace), 5000, false, false, None);
    assert_eq!(ed.text(), "one ");
    assert_eq!(ed.cursor(), 4);
}

#[test]
fn ctrl_left_jumps_to_word_starts() {
    let mut ed = LineEditor::new(0);
    type_slowly(&mut ed, "foo bar", 0);
    ed.apply_key(ctrl(Key::Left), 5000, false, false, None);
    assert_eq!(ed.cursor(), 4);
    ed.apply_key(ctrl(Key::Left), 5000, false, false, None);
    assert_eq!(ed.cursor(), 0);
}

#[test]
fn ctrl_right_passes_whitespace_then_a_word() {
    let mut ed = LineEditor::new(0);
    type_slowly(&mut ed, "foo  bar baz", 0);
    for _ in 0..12 {
        ed.apply_key(plain(Key::Left), 5000, false, false, None);
    }
    ed.apply_key(ctrl(Key::Right), 5000, false, false, None);
    assert_eq!(ed.cursor(), 3);
    ed.apply_key(ctrl(Key::Right), 5000, false, false, None);
    assert_eq!(ed.cursor(), 8);
}

#[test]
fn backspace_and_delete_remove_one_character() {
    let mut ed = LineEditor::new(0);
    type_slowly(&mut ed, "abcd", 0);
    ed.apply_key(plain(Key::Left), 5000, false, false, None);
    ed.apply_key(plain(Key::Backspace), 5000, false, false, None);
    assert_eq!(ed.text(), "abd");
    assert_eq!(ed.cursor(), 2);
    ed.apply_key(plain(Key::Delete), 5000, false, false, None);
    assert_eq!(ed.text(), "ab");
    assert_eq!(ed.cursor(), 2);
    ed.apply_key(plain(Key::Delete), 5000, false, false, None);
    assert_eq!(ed.text(), "ab");
}

#[test]
fn insert_in_the_middle() {
    let mut ed = LineEditor::new(0);
    type_slowly(&mut ed, "ac", 0);
    ed.apply_key(plain(Key::Left), 5000, false, false, None);
    ed.apply_key(plain(Key::Char('b')), 5100, false, false, None);
    assert_eq!(ed.text(), "abc");
    assert_eq!(ed.cursor(), 2);
}

#[test]
fn enter_submits_typed_text() {
    let mut ed = LineEditor::new(0);
    let t = type_slowly(&mut ed, "hi", 0);
    let r = ed.apply_key(plain(Key::Enter), t + 200, false, false, None);
    assert_eq!(r, EditAction::Submit);
    assert_eq!(ed.text(), "hi");
}

#[test]
fn enter_inside_a_paste_inserts_a_newline() {
    let mut ed = LineEditor::new(0);
    let mut t = 0;
    for c in "abcdefgh".chars() {
        t += 1;
        ed.apply_key(plain(Key::Char(c)), t, false, false, None);
    }
    assert!(ed.in_paste());
    let r = ed.apply_key(plain(Key::Enter), t + 1, false, false, None);
    assert_eq!(r, EditAction::Continue);
    assert_eq!(ed.text(), "abcdefgh\n");
    // After a quiet spell Enter submits again.
    let r = ed.apply_key(plain(Key::Enter), t + 500, false, false, None);
    assert_eq!(r, EditAction::Submit);
    assert!(!ed.in_paste());
}

#[test]
fn slow_typing_is_not_a_paste() {
    let mut ed = LineEditor::new(0);
    type_slowly(&mut ed, "abcdefgh", 0);
    assert!(!ed.in_paste());
}

#[test]
fn ctrl_c_cancels_and_ctrl_l_redraws() {
    let mut ed = LineEditor::new(0);
    type_slowly(&mut ed, "x", 0);
    assert_eq!(ed.apply_key(ctrl(Key::Char('l')), 1000, false, false, None), EditAction::ClearScreen);
    assert_eq!(ed.text(), "x");
    assert_eq!(ed.apply_key(ctrl(Key::Char('c')), 1000, false, false, None), EditAction::Cancel);
}

#[test]
fn history_up_up_down() {
    let mut history = BasicHistory::new();
    history.write("first");
    history.write("second");
    let rl: ReadLine<BasicHistory, Commands> = ReadLine::new().history(&mut history);
    let mut ed = LineEditor::new(0);
    rl.step(&mut ed, plain(Key::Up), 100);
    assert_eq!(ed.text(), "second");
    rl.step(&mut ed, plain(Key::Up), 200);
    assert_eq!(ed.text(), "first");
    assert_eq!(ed.cursor(), 5);
    rl.step(&mut ed, plain(Key::Up), 300);
    assert_eq!(ed.text(), "first");
    rl.step(&mut ed, plain(Key::Down), 400);
    assert_eq!(ed.text(), "second");
    rl.step(&mut ed, plain(Key::Down), 500);
    assert_eq!(ed.text(), "");
    assert_eq!(ed.cursor(), 0);
}

#[test]
fn up_without_history_changes_nothing() {
    let rl: ReadLine<BasicHistory, Commands> = ReadLine::new();
    let mut ed = LineEditor::new(0);
    type_slowly(&mut ed, "abc", 0);
    rl.step(&mut ed, plain(Key::Up), 1000);
    rl.step(&mut ed, plain(Key::Down), 1000);
    assert_eq!(ed.text(), "abc");
}

#[test]
fn tab_completes_the_text_left_of_the_cursor() {
    let commands = Commands;
    let rl: ReadLine<BasicHistory, Commands> = ReadLine::new().completion(&commands);
    let mut ed = LineEditor::new(0);
    type_slowly(&mut ed, "/he x", 0);
    for _ in 0..2 {
        ed.apply_key(plain(Key::Left), 5000, false, false, None);
    }
    rl.step(&mut ed, plain(Key::Tab), 6000);
    assert_eq!(ed.text(), "/help x");
    assert_eq!(ed.cursor(), 5);
    rl.step(&mut ed, plain(Key::Tab), 7000);
    assert_eq!(ed.text(), "/help x");
}

#[test]
fn remember_writes_to_history() {
    let mut history = BasicHistory::new();
    {
        let mut rl: ReadLine<BasicHistory, Commands> =
            ReadLine::new().prompt("> ").history(&mut history);
        assert_eq!(rl.prompt_text(), "> ");
        rl.remember("hello");
    }
    assert_eq!(history.read(0), Some("hello".to_string()));
    assert_eq!(history.read(1), None);
}

#[test]
fn basic_history_reads_newest_first() {
    let mut h = BasicHistory::new();
    for i in 0..5 {
        assert_eq!(h.read(i), None);
    }
    h.write("a");
    h.write("b");
    h.write("c");
    assert_eq!(h.read(0), Some("c".to_string()));
    assert_eq!(h.read(1), Some("b".to_string()));
    assert_eq!(h.read(2), Some("a".to_string()));
    assert_eq!(h.read(3), None);
}

#[test]
fn typing_then_backspace_drops_the_last_character() {
    let mut ed = LineEditor::new(0);
    let t = type_slowly(&mut ed, "añb", 0);
    ed.apply_key(plain(Key::Backspace), t + 100, false, false, None);
    assert_eq!(ed.apply_key(plain(Key::Enter), t + 200, false, false, None), EditAction::Submit);
    assert_eq!(ed.text(), "añ");
}

#[test]
fn lefts_then_rights_then_insert() {
    let mut ed = LineEditor::new(0);
    let t = type_slowly(&mut ed, "héllo", 0);
    for _ in 0..7 {
        ed.apply_key(plain(Key::Left), t + 100, false, false, None);
    }
    for _ in 0..2 {
        ed.apply_key(plain(Key::Right), t + 100, false, false, None);
    }
    ed.apply_key(plain(Key::Char('X')), t + 200, false, false, None);
    assert_eq!(ed.text(), "héXllo");
    for _ in 0..9 {
        ed.apply_key(plain(Key::Right), t + 300, false, false, None);
    }
    ed.apply_key(plain(Key::Char('!')), t + 400, false, false, None);
    assert_eq!(ed.text(), "héXllo!");
}
