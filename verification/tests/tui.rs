use todoozy::tui::{Action, InputFor, InputResult, Key, handle_input, key_action, prompt_for};
use todoozy::tui::{Input, Popup};
use todoozy::tui::{press, Effect, KeyEvent, KeyKind, TuiState};

#[test]
fn typing_inserts_at_the_cursor() {
    let mut input = Input::new(">".to_string());
    input.enter_char('a');
    input.enter_char('c');
    input.move_cursor_left();
    input.enter_char('b');
    assert_eq!(input.value(), "abc".to_string());
    assert_eq!(input.cursor(), 2);
}

#[test]
fn backspace_removes_before_the_cursor() {
    let mut input = Input::new(">".to_string());
    for c in "héllo".chars() {
        input.enter_char(c);
    }
    input.move_cursor_left();
    input.move_cursor_left();
    input.delete_char();
    assert_eq!(input.value(), "hélo".to_string());
    assert_eq!(input.cursor(), 2);
}

#[test]
fn backspace_undoes_typing() {
    let mut input = Input::new(">".to_string());
    input.enter_char('x');
    input.enter_char('y');
    input.move_cursor_left();
    input.enter_char('z');
    input.delete_char();
    assert_eq!(input.value(), "xy".to_string());
    assert_eq!(input.cursor(), 1);
}

#[test]
fn cursor_stays_within_the_text() {
    let mut input = Input::new(">".to_string());
    input.move_cursor_left();
    assert_eq!(input.cursor(), 0);
    input.delete_char();
    assert_eq!(input.value(), "".to_string());
    input.enter_char('a');
    input.move_cursor_right();
    input.move_cursor_right();
    assert_eq!(input.cursor(), 1);
}

#[test]
fn submit_returns_and_clears() {
    let mut input = Input::new("filter:".to_string());
    input.enter_char('p');
    input.enter_char('=');
    assert_eq!(input.submit(), "p=".to_string());
    assert_eq!(input.value(), "".to_string());
    assert_eq!(input.cursor(), 0);
    assert_eq!(input.prompt_length(), 7);
    assert_eq!(input.prompt(), "filter:");
}

#[test]
fn popup_keeps_its_size() {
    let popup = Popup::new(60, 20);
    assert_eq!(popup.percent_x(), 60);
    assert_eq!(popup.percent_y(), 20);
}

#[test]
fn popup_centres_content() {
    assert_eq!(todoozy::tui::Popup::vertical_padding(12, 3), 4);
    assert_eq!(todoozy::tui::Popup::vertical_padding(2, 0), 0);
    assert_eq!(todoozy::tui::Popup::vertical_padding(9, 7), 0);
}

#[test]
fn keyboard_shortcuts() {
    let act = |k| key_action(false, false, k);
    assert_eq!(act(Key::Char('q')), Action::Exit);
    assert_eq!(act(Key::Esc), Action::Exit);
    assert_eq!(key_action(false, true, Key::Char('q')), Action::Deselect);
    assert_eq!(key_action(false, true, Key::Esc), Action::Deselect);
    assert_eq!(act(Key::Char('j')), Action::SelectNext);
    assert_eq!(act(Key::Down), Action::SelectNext);
    assert_eq!(act(Key::Char('k')), Action::SelectPrevious);
    assert_eq!(act(Key::Up), Action::SelectPrevious);
    assert_eq!(act(Key::Char('g')), Action::SelectFirst);
    assert_eq!(act(Key::Home), Action::SelectFirst);
    assert_eq!(act(Key::Char('G')), Action::SelectLast);
    assert_eq!(act(Key::End), Action::SelectLast);
    assert_eq!(act(Key::Char('l')), Action::ToggleStatus);
    assert_eq!(act(Key::Right), Action::ToggleStatus);
    assert_eq!(act(Key::Enter), Action::ShowSelected);
    assert_eq!(act(Key::Char('e')), Action::EditSelected);
    assert_eq!(act(Key::Char('f')), Action::OpenInput(InputFor::Filter));
    assert_eq!(act(Key::Char('F')), Action::ResetFilter);
    assert_eq!(act(Key::Char('s')), Action::OpenInput(InputFor::Sort));
    assert_eq!(act(Key::Char('S')), Action::ResetSort);
    assert_eq!(act(Key::Char('i')), Action::ImportSelected);
    assert_eq!(act(Key::Char('I')), Action::ImportAll);
    assert_eq!(act(Key::Char('R')), Action::Refresh);
    assert_eq!(act(Key::Char('x')), Action::Nothing);
}

#[test]
fn keys_edit_the_open_input_line() {
    let act = |k| key_action(true, false, k);
    assert_eq!(act(Key::Char('q')), Action::InsertChar('q'));
    assert_eq!(act(Key::Enter), Action::SubmitInput);
    assert_eq!(act(Key::Backspace), Action::DeleteChar);
    assert_eq!(act(Key::Left), Action::CursorLeft);
    assert_eq!(act(Key::Right), Action::CursorRight);
    assert_eq!(act(Key::Esc), Action::CloseInput);
    assert_eq!(act(Key::Up), Action::Nothing);
}

#[test]
fn input_line_prompt_and_result() {
    assert_eq!(prompt_for(InputFor::Filter), "filter:");
    assert_eq!(prompt_for(InputFor::Sort), "sort:");
    assert_eq!(
        handle_input(Some(InputFor::Filter), "priority=A".to_string()),
        Some(InputResult::SetFilter("priority=A".to_string()))
    );
    assert_eq!(
        handle_input(Some(InputFor::Sort), "priority:asc".to_string()),
        Some(InputResult::SetSort("priority:asc".to_string()))
    );
    assert_eq!(handle_input(None, "x".to_string()), None);
}

#[test]
fn new_interface_runs_without_details() {
    let state = TuiState::new();
    assert!(!state.should_exit);
    assert_eq!(state.details, None);
    assert_eq!(state.message, None);
    assert_eq!(state.input_prompt(), None);
}

#[test]
fn q_exits_when_no_details_are_shown() {
    let (state, effect) = TuiState::new().handle_key(press(Key::Char('q')), Some(3));
    assert!(state.should_exit);
    assert_eq!(effect, Effect::Nothing);
}

#[test]
fn enter_shows_the_selection_and_esc_closes_it() {
    let (state, effect) = TuiState::new().handle_key(press(Key::Enter), Some(2));
    assert_eq!(state.details, Some(2));
    assert_eq!(effect, Effect::Nothing);
    let (state, effect) = state.handle_key(press(Key::Esc), Some(2));
    assert_eq!(state.details, None);
    assert!(!state.should_exit);
    assert_eq!(effect, Effect::Nothing);
}

#[test]
fn navigation_keys_go_to_the_program() {
    let (state, effect) = TuiState::new().handle_key(press(Key::Char('j')), None);
    assert_eq!(effect, Effect::Forward(Action::SelectNext));
    let (_, effect) = state.handle_key(press(Key::Char('I')), None);
    assert_eq!(effect, Effect::Forward(Action::ImportAll));
}

#[test]
fn typed_filter_is_submitted() {
    let (mut state, _) = TuiState::new().handle_key(press(Key::Char('f')), None);
    assert_eq!(state.input_prompt(), Some(&"filter:".to_string()));
    for c in "p=1".chars() {
        let (next, effect) = state.handle_key(press(Key::Char(c)), None);
        assert_eq!(effect, Effect::Nothing);
        state = next;
    }
    let (state, effect) = state.handle_key(press(Key::Enter), None);
    assert_eq!(effect, Effect::Submit(InputResult::SetFilter("p=1".to_string())));
    assert_eq!(state.input_prompt(), None);
}

#[test]
fn q_in_the_input_line_is_typed() {
    let (state, _) = TuiState::new().handle_key(press(Key::Char('s')), None);
    let (state, _) = state.handle_key(press(Key::Char('q')), None);
    assert!(!state.should_exit);
    let (state, effect) = state.handle_key(press(Key::Enter), None);
    assert_eq!(effect, Effect::Submit(InputResult::SetSort("q".to_string())));
    assert!(!state.should_exit);
}

#[test]
fn esc_closes_the_input_line_without_submitting() {
    let (state, _) = TuiState::new().handle_key(press(Key::Enter), Some(1));
    let (state, _) = state.handle_key(press(Key::Char('f')), Some(1));
    let (state, _) = state.handle_key(press(Key::Char('x')), Some(1));
    let (state, effect) = state.handle_key(press(Key::Esc), Some(1));
    assert_eq!(effect, Effect::Nothing);
    assert_eq!(state.input_prompt(), None);
    assert_eq!(state.details, Some(1));
    assert!(!state.should_exit);
}

#[test]
fn every_key_clears_the_message() {
    let mut state = TuiState::new();
    state.message = Some("imported".to_string());
    let (state, _) = state.handle_key(press(Key::Other), None);
    assert_eq!(state.message, None);
}

#[test]
fn released_and_repeated_keys_change_nothing() {
    let mut state = TuiState::new();
    state.message = Some("imported".to_string());
    let release = KeyEvent { code: Key::Char('q'), kind: KeyKind::Release };
    let (state, effect) = state.handle_key(release, Some(0));
    assert_eq!(effect, Effect::Nothing);
    assert!(!state.should_exit);
    assert_eq!(state.message, Some("imported".to_string()));
    let repeat = KeyEvent { code: Key::Char('j'), kind: KeyKind::Repeat };
    let (state, effect) = state.handle_key(repeat, None);
    assert_eq!(effect, Effect::Nothing);
    assert_eq!(state.message, Some("imported".to_string()));
}
