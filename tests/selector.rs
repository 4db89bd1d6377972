use chad_llm::keys::{Key, KeyPress};
use chad_llm::selector::{filter_items, score_keeps, SelectAction, Selector};

fn plain(code: Key) -> KeyPress {
    KeyPress { code, ctrl: false }
}

fn fruits() -> Vec<String> {
    vec!["apple".to_string(), "banana".to_string(), "cherry".to_string()]
}

fn type_query(s: &mut Selector, q: &str) {
    for c in q.chars() {
        assert_eq!(s.handle_key(plain(Key::Char(c))), SelectAction::Continue);
    }
}

#[test]
fn query_filters_in_original_order() {
    let rows = filter_items(&fruits(), "ban");
    assert_eq!(rows, vec![(1, "banana".to_string())]);
}

#[test]
fn empty_query_keeps_everything() {
    let rows = filter_items(&fruits(), "");
    assert_eq!(
        rows,
        vec![(0, "apple".to_string()), (1, "banana".to_string()), (2, "cherry".to_string())]
    );
}

#[test]
fn filtering_does_not_rerank() {
    let items = vec!["abc_def".to_string(), "zzz".to_string(), "abc".to_string()];
    let rows = filter_items(&items, "abc");
    assert_eq!(rows, vec![(0, "abc_def".to_string()), (2, "abc".to_string())]);
}

#[test]
fn single_select_enter_after_query() {
    let mut s = Selector::new(fruits(), true, &[]);
    type_query(&mut s, "ban");
    assert_eq!(s.handle_key(plain(Key::Enter)), SelectAction::Done);
    assert_eq!(s.selection(), vec![1]);
}

#[test]
fn multi_select_keeps_preselection() {
    let mut s = Selector::new(fruits(), false, &[0, 2]);
    assert_eq!(s.handle_key(plain(Key::Enter)), SelectAction::Done);
    assert_eq!(s.selection(), vec![0, 2]);
}

#[test]
fn single_select_space_replaces_the_choice() {
    let mut s = Selector::new(fruits(), true, &[]);
    s.handle_key(plain(Key::Char(' ')));
    assert_eq!(s.selection(), vec![0]);
    s.handle_key(plain(Key::Down));
    s.handle_key(plain(Key::Char(' ')));
    assert_eq!(s.selection(), vec![1]);
    s.handle_key(plain(Key::Down));
    s.handle_key(plain(Key::Char(' ')));
    s.handle_key(plain(Key::Char(' ')));
    assert_eq!(s.selection(), vec![2]);
    s.handle_key(plain(Key::Enter));
    assert_eq!(s.selection(), vec![2]);
}

#[test]
fn multi_select_toggles_come_out_sorted() {
    let mut s = Selector::new(fruits(), false, &[]);
    s.handle_key(plain(Key::Down));
    s.handle_key(plain(Key::Down));
    s.handle_key(plain(Key::Char(' ')));
    s.handle_key(plain(Key::Up));
    s.handle_key(plain(Key::Up));
    s.handle_key(plain(Key::Char(' ')));
    s.handle_key(plain(Key::Down));
    s.handle_key(plain(Key::Char(' ')));
    s.handle_key(plain(Key::Char(' ')));
    s.handle_key(plain(Key::Enter));
    assert_eq!(s.selection(), vec![0, 2]);
}

#[test]
fn duplicate_preselection_is_counted_once() {
    let s = Selector::new(fruits(), false, &[2, 0, 2, 7]);
    assert_eq!(s.selection(), vec![0, 2]);
    assert_eq!(s.highlighted(), 2);
}

#[test]
fn escape_clears_everything() {
    let mut s = Selector::new(fruits(), false, &[0, 1]);
    assert_eq!(s.handle_key(plain(Key::Esc)), SelectAction::Done);
    assert_eq!(s.selection(), Vec::<usize>::new());
}

#[test]
fn ctrl_c_gives_nothing() {
    let mut s = Selector::new(fruits(), true, &[1]);
    let r = s.handle_key(KeyPress { code: Key::Char('c'), ctrl: true });
    assert_eq!(r, SelectAction::Done);
    assert_eq!(s.selection(), Vec::<usize>::new());
}

#[test]
fn viewport_scrolls_one_row_at_a_time() {
    let items: Vec<String> = (0..15).map(|i| format!("item {}", i)).collect();
    let mut s = Selector::new(items, false, &[]);
    assert_eq!(s.window(), 10);
    assert_eq!(s.visible(), (0, 10));
    for _ in 0..12 {
        s.handle_key(plain(Key::Down));
    }
    assert_eq!(s.highlighted(), 12);
    assert_eq!(s.visible(), (3, 13));
    for _ in 0..5 {
        s.handle_key(plain(Key::Down));
    }
    assert_eq!(s.highlighted(), 14);
    assert_eq!(s.visible(), (5, 15));
    for _ in 0..10 {
        s.handle_key(plain(Key::Up));
    }
    assert_eq!(s.highlighted(), 4);
    assert_eq!(s.visible(), (4, 14));
}

#[test]
fn preselection_far_down_ends_the_view_there() {
    let items: Vec<String> = (0..15).map(|i| format!("item {}", i)).collect();
    let s = Selector::new(items, true, &[12]);
    assert_eq!(s.highlighted(), 12);
    assert_eq!(s.visible(), (3, 13));
}

#[test]
fn query_edits_reset_the_highlight() {
    let mut s = Selector::new(fruits(), false, &[]);
    s.handle_key(plain(Key::Down));
    s.handle_key(plain(Key::Down));
    type_query(&mut s, "ba");
    assert_eq!(s.highlighted(), 0);
    assert_eq!(s.query(), "ba");
    assert_eq!(s.rows().to_vec(), vec![(1, "banana".to_string())]);
    s.handle_key(plain(Key::Backspace));
    assert_eq!(s.query(), "b");
    assert_eq!(s.highlighted(), 0);
    s.handle_key(KeyPress { code: Key::Backspace, ctrl: true });
    assert_eq!(s.query(), "");
    assert_eq!(s.rows().len(), 3);
}

#[test]
fn no_match_leaves_nothing_to_choose() {
    let mut s = Selector::new(fruits(), true, &[]);
    type_query(&mut s, "zzz");
    assert_eq!(s.rows().len(), 0);
    assert_eq!(s.visible(), (0, 0));
    s.handle_key(plain(Key::Char(' ')));
    s.handle_key(plain(Key::Enter));
    assert_eq!(s.selection(), Vec::<usize>::new());
}

#[test]
fn empty_item_list() {
    let mut s = Selector::new(Vec::new(), true, &[0]);
    assert_eq!(s.window(), 0);
    s.handle_key(plain(Key::Down));
    s.handle_key(plain(Key::Enter));
    assert_eq!(s.selection(), Vec::<usize>::new());
}

#[test]
fn chosen_flags_follow_toggles() {
    let mut s = Selector::new(fruits(), false, &[]);
    s.handle_key(plain(Key::Char(' ')));
    assert!(s.is_chosen(0));
    assert!(!s.is_chosen(1));
    assert!(!s.is_chosen(9));
}

#[test]
fn only_positive_scores_keep_an_item() {
    assert!(score_keeps(Some(1)));
    assert!(score_keeps(Some(250)));
    assert!(!score_keeps(Some(0)));
    assert!(!score_keeps(Some(-3)));
    assert!(!score_keeps(None));
}

#[test]
fn query_then_down_stops_at_the_last_row() {
    let items = vec!["ab1".to_string(), "zz".to_string(), "ab2".to_string(), "ab3".to_string()];
    let mut s = Selector::new(items, false, &[]);
    type_query(&mut s, "ab");
    assert_eq!(s.rows().len(), 3);
    for _ in 0..5 {
        s.handle_key(plain(Key::Down));
    }
    s.handle_key(plain(Key::Char(' ')));
    s.handle_key(plain(Key::Enter));
    assert_eq!(s.selection(), vec![3]);
}
