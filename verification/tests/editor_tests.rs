use crust::keys::{
    apply_completion, end_key_cycle, get_completion, handle_keypressed, CycleStep, Key, KeyInput,
    Mode,
};
use crust::ui::Prompt;

fn key(k: Key) -> KeyInput {
    KeyInput { key: k, ctrl: false }
}

fn ctrl(c: char) -> KeyInput {
    KeyInput {
        key: Key::Char(c),
        ctrl: true,
    }
}

fn type_line(prompt: &mut Prompt, history: &Vec<String>, entries: &Vec<String>, line: &str) {
    for c in line.chars() {
        handle_keypressed(key(Key::Char(c)), prompt, history, entries);
    }
}

#[test]
fn test_typing_appends_at_cursor() {
    let history: Vec<String> = Vec::new();
    let entries: Vec<String> = Vec::new();
    let mut prompt = Prompt::default();
    type_line(&mut prompt, &history, &entries, "hello");
    assert_eq!(prompt.input, "hello");
    assert_eq!(prompt.position, 5);
    assert_eq!(prompt.mode, Mode::Input);
}

#[test]
fn test_insert_in_the_middle() {
    let history: Vec<String> = Vec::new();
    let entries: Vec<String> = Vec::new();
    let mut prompt = Prompt::default();
    type_line(&mut prompt, &history, &entries, "hllo");
    handle_keypressed(key(Key::Left), &mut prompt, &history, &entries);
    handle_keypressed(key(Key::Left), &mut prompt, &history, &entries);
    handle_keypressed(key(Key::Left), &mut prompt, &history, &entries);
    handle_keypressed(key(Key::Char('e')), &mut prompt, &history, &entries);
    assert_eq!(prompt.input, "hello");
    assert_eq!(prompt.position, 2);
}

#[test]
fn test_backspace_no_op_on_empty_buffer() {
    let history: Vec<String> = Vec::new();
    let entries: Vec<String> = Vec::new();
    let mut prompt = Prompt::default();
    handle_keypressed(key(Key::Backspace), &mut prompt, &history, &entries);
    assert_eq!(prompt.input, "");
    assert_eq!(prompt.position, 0);
}

#[test]
fn test_backspace_no_op_at_start_of_line() {
    let history: Vec<String> = Vec::new();
    let entries: Vec<String> = Vec::new();
    let mut prompt = Prompt::default();
    type_line(&mut prompt, &history, &entries, "abc");
    for _ in 0..3 {
        handle_keypressed(key(Key::Left), &mut prompt, &history, &entries);
    }
    handle_keypressed(key(Key::Backspace), &mut prompt, &history, &entries);
    assert_eq!(prompt.input, "abc");
    assert_eq!(prompt.position, 0);
}

#[test]
fn test_backspace_at_end_and_inside() {
    let history: Vec<String> = Vec::new();
    let entries: Vec<String> = Vec::new();
    let mut prompt = Prompt::default();
    type_line(&mut prompt, &history, &entries, "abcd");
    handle_keypressed(key(Key::Backspace), &mut prompt, &history, &entries);
    assert_eq!(prompt.input, "abc");
    assert_eq!(prompt.position, 3);
    handle_keypressed(key(Key::Left), &mut prompt, &history, &entries);
    handle_keypressed(key(Key::Backspace), &mut prompt, &history, &entries);
    assert_eq!(prompt.input, "ac");
    assert_eq!(prompt.position, 1);
}

#[test]
fn test_arrows_clamp_to_line() {
    let history: Vec<String> = Vec::new();
    let entries: Vec<String> = Vec::new();
    let mut prompt = Prompt::default();
    handle_keypressed(key(Key::Left), &mut prompt, &history, &entries);
    assert_eq!(prompt.position, 0);
    type_line(&mut prompt, &history, &entries, "ab");
    handle_keypressed(key(Key::Right), &mut prompt, &history, &entries);
    assert_eq!(prompt.position, 2);
}

#[test]
fn test_history_up_and_down_round_trip() {
    let history: Vec<String> = vec!["first".to_string(), "second".to_string()];
    let entries: Vec<String> = Vec::new();
    let mut prompt = Prompt::default();
    type_line(&mut prompt, &history, &entries, "draft");

    handle_keypressed(key(Key::Up), &mut prompt, &history, &entries);
    assert_eq!(prompt.input, "second");
    assert_eq!(prompt.position, 6);
    assert_eq!(prompt.mode, Mode::HistoryLookup);

    handle_keypressed(key(Key::Up), &mut prompt, &history, &entries);
    assert_eq!(prompt.input, "first");

    // a third Up has nothing older to show
    handle_keypressed(key(Key::Up), &mut prompt, &history, &entries);
    assert_eq!(prompt.input, "first");

    handle_keypressed(key(Key::Down), &mut prompt, &history, &entries);
    assert_eq!(prompt.input, "second");

    handle_keypressed(key(Key::Down), &mut prompt, &history, &entries);
    assert_eq!(prompt.input, "draft");
    assert_eq!(prompt.position, 5);
}

#[test]
fn test_down_without_browsing_is_no_op() {
    let history: Vec<String> = vec!["first".to_string()];
    let entries: Vec<String> = Vec::new();
    let mut prompt = Prompt::default();
    type_line(&mut prompt, &history, &entries, "x");
    handle_keypressed(key(Key::Down), &mut prompt, &history, &entries);
    assert_eq!(prompt.input, "x");
}

#[test]
fn test_control_keys_set_modes() {
    let history: Vec<String> = Vec::new();
    let entries: Vec<String> = Vec::new();
    let mut prompt = Prompt::default();
    handle_keypressed(ctrl('c'), &mut prompt, &history, &entries);
    assert_eq!(prompt.mode, Mode::Break);

    let mut prompt = Prompt::default();
    handle_keypressed(ctrl('d'), &mut prompt, &history, &entries);
    assert_eq!(prompt.mode, Mode::Exit);

    let mut prompt = Prompt::default();
    handle_keypressed(key(Key::Enter), &mut prompt, &history, &entries);
    assert_eq!(prompt.mode, Mode::Submit);
}

#[test]
fn test_control_with_other_char_inserts_it() {
    let history: Vec<String> = Vec::new();
    let entries: Vec<String> = Vec::new();
    let mut prompt = Prompt::default();
    handle_keypressed(ctrl('x'), &mut prompt, &history, &entries);
    assert_eq!(prompt.input, "x");
}

#[test]
fn test_tab_with_single_match_completes() {
    let history: Vec<String> = Vec::new();
    let entries: Vec<String> = vec!["README.md".to_string(), "src".to_string()];
    let mut prompt = Prompt::default();
    type_line(&mut prompt, &history, &entries, "cat REA");
    handle_keypressed(key(Key::Tab), &mut prompt, &history, &entries);
    assert_eq!(prompt.completions, ["DME.md"]);
    apply_completion(&mut prompt);
    assert_eq!(prompt.input, "cat README.md");
    assert_eq!(prompt.position, 13);
}

#[test]
fn test_tab_with_many_matches_lists_them() {
    let history: Vec<String> = Vec::new();
    let entries: Vec<String> = vec!["ab1".to_string(), "ab2".to_string(), "cd".to_string()];
    let mut prompt = Prompt::default();
    type_line(&mut prompt, &history, &entries, "ab");
    handle_keypressed(key(Key::Tab), &mut prompt, &history, &entries);
    assert_eq!(prompt.completions, ["ab1", "ab2"]);
    apply_completion(&mut prompt);
    assert_eq!(prompt.input, "ab");
}

#[test]
fn test_get_completion_on_empty_token_matches_all() {
    let entries: Vec<String> = vec!["a".to_string(), "b".to_string()];
    let r = get_completion("", &entries);
    assert_eq!(r, ["a", "b"]);
}

#[test]
fn test_end_key_cycle_steps() {
    let history: Vec<String> = Vec::new();
    let entries: Vec<String> = Vec::new();

    let mut prompt = Prompt::default();
    type_line(&mut prompt, &history, &entries, "ls");
    handle_keypressed(key(Key::Enter), &mut prompt, &history, &entries);
    let step = end_key_cycle(&mut prompt);
    assert_eq!(step, CycleStep::Submitted);
    assert_eq!(prompt.input, "ls");

    let mut prompt = Prompt::default();
    handle_keypressed(ctrl('d'), &mut prompt, &history, &entries);
    assert_eq!(end_key_cycle(&mut prompt), CycleStep::Terminate);

    let mut prompt = Prompt::default();
    type_line(&mut prompt, &history, &entries, "half a line");
    handle_keypressed(ctrl('c'), &mut prompt, &history, &entries);
    let step = end_key_cycle(&mut prompt);
    assert_eq!(step, CycleStep::Continue);
    assert_eq!(prompt.input, "");
    assert_eq!(prompt.position, 0);
    assert_eq!(prompt.mode, Mode::Input);

    let mut prompt = Prompt::default();
    type_line(&mut prompt, &history, &entries, "keep");
    let step = end_key_cycle(&mut prompt);
    assert_eq!(step, CycleStep::Continue);
    assert_eq!(prompt.input, "keep");
    assert_eq!(prompt.mode, Mode::Input);
}
