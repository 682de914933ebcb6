use dogel::command::UserCommand;
use dogel::keys::TuiAction;
use dogel::keys::TuiKey;
use dogel::reply::Reply;
use dogel::screen::captured_lines;
use dogel::screen::line_style;
use dogel::screen::LineStyle;
use dogel::text::Lines;
use dogel::tui::TuiSecretFlow;
use dogel::tui::TuiState;

fn typed(tui: &mut TuiState, text: &str) {
    for ch in text.chars() {
        let _ = tui.press(
            TuiKey::Char {
                ch,
                control: false,
                plain: true,
            },
            false,
        );
    }
}

fn log_of(tui: &TuiState) -> Vec<String> {
    tui.log.iter().cloned().collect()
}

#[test]
fn tui_create_identity_secret_flow_reaches_confirmation() {
    let mut tui = TuiState::new();
    tui.start_secret_flow(TuiSecretFlow::CreateIdentity {
        alias: "alice".to_string(),
        first_password: None,
    });

    assert_eq!(tui.secret_prompt(), Some("Password: "));
    tui.input = "supersecret".to_string();
    tui.input_cursor = tui.input.len();
    let password = tui.take_input(false);
    tui.secret_flow = Some(TuiSecretFlow::CreateIdentity {
        alias: "alice".to_string(),
        first_password: Some(password),
    });

    assert_eq!(tui.secret_prompt(), Some("Confirm password: "));
    assert!(tui.input.is_empty());
    assert!(tui.input_history.is_empty());
}

#[test]
fn tui_login_secret_flow_clears_secret_without_history() {
    let mut tui = TuiState::new();
    tui.start_secret_flow(TuiSecretFlow::Login {
        alias: "alice".to_string(),
    });

    assert_eq!(tui.secret_prompt(), Some("Password: "));
    tui.input = "supersecret".to_string();
    tui.input_cursor = tui.input.len();
    assert_eq!(tui.take_input(false), "supersecret");
    assert!(tui.input.is_empty());
    assert!(tui.input_history.is_empty());
}

#[test]
fn the_cursor_moves_by_characters() {
    let mut tui = TuiState::new();
    typed(&mut tui, "a\u{e4}\u{20ac}z");
    assert_eq!(tui.input_cursor, 7);
    let _ = tui.press(TuiKey::Left, false);
    assert_eq!(tui.input_cursor, 6);
    let _ = tui.press(TuiKey::Left, false);
    assert_eq!(tui.input_cursor, 3);
    let _ = tui.press(TuiKey::Backspace, false);
    assert_eq!(tui.input, "a\u{20ac}z");
    assert_eq!(tui.input_cursor, 1);
    let _ = tui.press(TuiKey::Delete, false);
    assert_eq!(tui.input, "az");
    let _ = tui.press(TuiKey::Right, false);
    let _ = tui.press(TuiKey::Right, false);
    assert_eq!(tui.input_cursor, 2);
    let _ = tui.press(TuiKey::Home, false);
    assert_eq!(tui.input_cursor, 0);
    let _ = tui.press(TuiKey::End, false);
    assert_eq!(tui.input_cursor, 2);
}

#[test]
fn removing_a_typed_character_restores_the_input() {
    let mut tui = TuiState::new();
    typed(&mut tui, "ab");
    let _ = tui.press(TuiKey::Left, false);
    typed(&mut tui, "\u{20ac}");
    assert_eq!(tui.input, "a\u{20ac}b");
    let _ = tui.press(TuiKey::Backspace, false);
    assert_eq!(tui.input, "ab");
    assert_eq!(tui.input_cursor, 1);
}

#[test]
fn ordinary_text_is_sent_and_recorded() {
    let mut tui = TuiState::new();
    typed(&mut tui, "  hello  ");
    match tui.press(TuiKey::Enter, false) {
        TuiAction::Send { text } => assert_eq!(text, "hello"),
        _ => panic!("not sent"),
    }
    assert_eq!(tui.input_history, vec!["hello"]);
    assert_eq!(log_of(&tui), vec!["> hello"]);
}

#[test]
fn the_history_is_browsed() {
    let mut tui = TuiState::new();
    for line in ["one", "two", "two"] {
        typed(&mut tui, line);
        let _ = tui.press(TuiKey::Enter, false);
    }
    assert_eq!(tui.input_history, vec!["one", "two"]);
    let _ = tui.press(TuiKey::Up, false);
    assert_eq!(tui.input, "two");
    let _ = tui.press(TuiKey::Up, false);
    let _ = tui.press(TuiKey::Up, false);
    assert_eq!(tui.input, "one");
    let _ = tui.press(TuiKey::Down, false);
    assert_eq!(tui.input, "two");
    let _ = tui.press(TuiKey::Down, false);
    assert_eq!(tui.input, "");
    assert_eq!(tui.history_cursor, None);
}

#[test]
fn the_history_and_the_log_are_bounded() {
    let mut tui = TuiState::new();
    for i in 0..1005 {
        tui.input = format!("line {i}");
        tui.input_cursor = tui.input.len();
        tui.commit_input(true);
        tui.push_log(format!("log {i}"));
    }
    assert_eq!(tui.input_history.len(), 200);
    assert_eq!(tui.input_history[0], "line 805");
    assert_eq!(tui.log.len(), 1000);
    assert_eq!(tui.log[0], "log 5");
}

#[test]
fn a_password_is_asked_for_twice_and_leaves_no_trace() {
    let mut tui = TuiState::new();
    typed(&mut tui, "/identity create alice");
    let _ = tui.press(TuiKey::Enter, false);
    typed(&mut tui, "supersecret");
    assert_eq!(tui.visible_input(), "***********");
    let _ = tui.press(TuiKey::Enter, false);
    typed(&mut tui, "supersecret");
    match tui.press(TuiKey::Enter, false) {
        TuiAction::CreateIdentity { alias, password } => {
            assert_eq!(alias, "alice");
            assert_eq!(password, "supersecret");
        }
        _ => panic!("not created"),
    }
    assert_eq!(tui.input_history, vec!["/identity create alice"]);
    assert!(!log_of(&tui).iter().any(|line| line.contains("supersecret")));
}

#[test]
fn different_passwords_are_refused() {
    let mut tui = TuiState::new();
    typed(&mut tui, "/identity create alice");
    let _ = tui.press(TuiKey::Enter, false);
    typed(&mut tui, "one");
    let _ = tui.press(TuiKey::Enter, false);
    typed(&mut tui, "two");
    assert!(matches!(
        tui.press(TuiKey::Enter, false),
        TuiAction::Nothing
    ));
    assert_eq!(tui.log.back().unwrap(), "error: passwords do not match");
    assert!(tui.secret_flow.is_none());
}

#[test]
fn escape_cancels_a_secret() {
    let mut tui = TuiState::new();
    let _ = tui.press(TuiKey::Esc, false);
    assert_eq!(tui.log.back().unwrap(), "ESC ignored; use /quit");
    typed(&mut tui, "/login alice");
    let _ = tui.press(TuiKey::Enter, false);
    typed(&mut tui, "secret");
    let _ = tui.press(TuiKey::Esc, false);
    assert_eq!(tui.log.back().unwrap(), "secret input cancelled");
    assert_eq!(tui.input, "");
}

#[test]
fn a_second_login_is_refused_at_once() {
    let mut tui = TuiState::new();
    typed(&mut tui, "/login alice");
    let _ = tui.press(TuiKey::Enter, true);
    assert_eq!(
        tui.log.back().unwrap(),
        "error: an identity is already unlocked in this process"
    );
    assert!(tui.secret_flow.is_none());
}

#[test]
fn commands_run_and_mistakes_are_told() {
    let mut tui = TuiState::new();
    typed(&mut tui, "/peers");
    assert!(matches!(
        tui.press(TuiKey::Enter, false),
        TuiAction::Run(UserCommand::Peers)
    ));
    typed(&mut tui, "/nonsense");
    let _ = tui.press(TuiKey::Enter, false);
    assert!(tui.log.back().unwrap().starts_with("parse error: "));
    typed(&mut tui, "/clear");
    let _ = tui.press(TuiKey::Enter, false);
    assert!(tui.log.is_empty());
    typed(&mut tui, "/quit");
    assert!(matches!(tui.press(TuiKey::Enter, false), TuiAction::Quit));
    assert_eq!(tui.log.back().unwrap(), "bye");
}

#[test]
fn control_keys_are_not_text() {
    let mut tui = TuiState::new();
    let _ = tui.press(
        TuiKey::Char {
            ch: 'c',
            control: true,
            plain: false,
        },
        false,
    );
    assert_eq!(tui.log.back().unwrap(), "^C ignored; use /quit");
    let _ = tui.press(
        TuiKey::Char {
            ch: 'x',
            control: true,
            plain: false,
        },
        false,
    );
    assert_eq!(tui.input, "");
}

#[test]
fn the_log_scrolls() {
    let mut tui = TuiState::new();
    for i in 0..20 {
        tui.push_log(format!("{i}"));
    }
    assert_eq!(tui.title(), " session ");
    assert_eq!(tui.visible_log(5), vec!["17", "18", "19"]);
    let _ = tui.press(TuiKey::PageUp, false);
    assert_eq!(tui.log_scroll, 8);
    assert_eq!(tui.visible_log(4), vec!["10", "11"]);
    assert_eq!(tui.title(), " session scrolled ");
    let _ = tui.press(TuiKey::PageUp, false);
    let _ = tui.press(TuiKey::PageUp, false);
    assert_eq!(tui.log_scroll, 19);
    let _ = tui.press(TuiKey::PageDown, false);
    assert_eq!(tui.log_scroll, 11);
}

#[test]
fn replies_are_cut_at_line_feeds() {
    let mut tui = TuiState::new();
    let mut lines = Lines::new();
    lines.say("one\n\ntwo");
    tui.push_reply(&Reply {
        lines,
        error: Some("bad\nworse".to_string()),
    });
    assert_eq!(log_of(&tui), vec!["one", "", "two", "error: bad\nworse"]);
}

#[test]
fn lines_are_styled_by_their_start() {
    assert_eq!(line_style("error: x"), LineStyle::Error);
    assert_eq!(line_style("parse error: x"), LineStyle::Error);
    assert_eq!(line_style("> x"), LineStyle::Echo);
    assert_eq!(line_style(" error: x"), LineStyle::Plain);
}

#[test]
fn the_cursor_is_shown_inside_its_frame() {
    let mut tui = TuiState::new();
    typed(&mut tui, "ab");
    assert_eq!(tui.cursor_position(4, 7, 40, "> "), Some((9, 8)));
    assert_eq!(tui.cursor_position(4, 7, 6, "> "), None);
}

#[test]
fn the_front_end_greets() {
    let mut tui = TuiState::new();
    tui.greet();
    assert_eq!(tui.log.len(), 3);
    assert_eq!(tui.log[0], "dogel.bin v0.1 phase 16 TUI");
}

#[test]
fn captures_command_output_lines() {
    let mut printed = Lines::new();
    printed.say("one");
    printed.say("");
    printed.say("two");
    assert_eq!(captured_lines(&printed), vec!["one", "", "two"]);
}
