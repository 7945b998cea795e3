use sshmgr_tui::editor::{InputKey, InputKeyCode, TextInput, input_view, InputView};

fn key(code: InputKeyCode) -> InputKey {
    InputKey {
        code,
        control: false,
        alt: false,
    }
}

fn ctrl(c: char) -> InputKey {
    InputKey {
        code: InputKeyCode::Char(c),
        control: true,
        alt: false,
    }
}

#[test]
fn text_input_edits_graphemes_without_splitting_utf8() {
    let mut input = TextInput::new("主机🙂".to_owned());
    input.handle_key(key(InputKeyCode::Backspace));
    assert_eq!(input.value, "主机");
    input.handle_key(key(InputKeyCode::Left));
    input.handle_key(key(InputKeyCode::Backspace));
    assert_eq!(input.value, "机");
}

#[test]
fn new_input_puts_cursor_at_the_end_in_bytes() {
    let input = TextInput::new("主机".to_owned());
    assert_eq!(input.cursor, 6);
    assert!(!input.secret);
    let secret = TextInput::secret("pw".to_owned());
    assert_eq!(secret.cursor, 2);
    assert!(secret.secret);
}

#[test]
fn insert_text_goes_in_at_the_cursor() {
    let mut input = TextInput::new("ab".to_owned());
    input.handle_key(key(InputKeyCode::Left));
    input.insert_text("粘贴");
    assert_eq!(input.value, "a粘贴b");
    assert_eq!(input.cursor, 7);
}

#[test]
fn keys_move_and_delete_by_grapheme() {
    let mut input = TextInput::new("e\u{301}x".to_owned());
    input.handle_key(key(InputKeyCode::Home));
    assert_eq!(input.cursor, 0);
    input.handle_key(key(InputKeyCode::Right));
    assert_eq!(input.cursor, 3);
    input.handle_key(key(InputKeyCode::Delete));
    assert_eq!(input.value, "e\u{301}");
    input.handle_key(key(InputKeyCode::End));
    assert_eq!(input.cursor, 3);
    assert!(input.handle_key(key(InputKeyCode::Char('z'))));
    assert_eq!(input.value, "e\u{301}z");
}

#[test]
fn control_keys_clear_either_side() {
    let mut input = TextInput::new("hello".to_owned());
    input.handle_key(key(InputKeyCode::Left));
    input.handle_key(key(InputKeyCode::Left));
    input.handle_key(ctrl('k'));
    assert_eq!(input.value, "hel");
    input.handle_key(ctrl('u'));
    assert_eq!(input.value, "");
    assert_eq!(input.cursor, 0);
    assert!(!input.handle_key(ctrl('x')));
    assert!(!input.handle_key(key(InputKeyCode::Other)));
}

#[test]
fn input_view_scrolls_by_unicode_cells_and_keeps_cursor_visible() {
    let input = TextInput::new("甲乙丙丁".to_owned());
    assert_eq!(
        input_view(&input, 5, ""),
        InputView { text: "丙丁".to_owned(), cursor_column: 4 }
    );

    let input = TextInput { value: "甲乙丙丁".to_owned(), cursor: "甲".len(), secret: false };
    assert_eq!(
        input_view(&input, 5, ""),
        InputView { text: "甲乙".to_owned(), cursor_column: 2 }
    );
}

#[test]
fn secret_input_view_counts_graphemes_not_bytes() {
    let input = TextInput::secret("密🙂码".to_owned());
    assert_eq!(
        input_view(&input, 3, ""),
        InputView { text: "••".to_owned(), cursor_column: 2 }
    );
}

#[test]
fn empty_input_view_shows_the_placeholder() {
    let input = TextInput::new(String::new());
    assert_eq!(
        input_view(&input, 10, "user@host"),
        InputView { text: "user@host".to_owned(), cursor_column: 0 }
    );
}

#[test]
fn insertion_moves_the_cursor_to_the_end_of_the_cluster_it_lands_in() {
    let mut input = TextInput::new("\u{1F1E6}".to_owned());
    input.handle_key(key(InputKeyCode::Home));
    input.handle_key(key(InputKeyCode::Char('\u{1F1E7}')));
    assert_eq!(input.value, "\u{1F1E7}\u{1F1E6}");
    assert_eq!(input.cursor, input.value.len());

    let mut accent = TextInput::new("\u{301}".to_owned());
    accent.handle_key(key(InputKeyCode::Home));
    accent.insert_text("e");
    assert_eq!(accent.value, "e\u{301}");
    assert_eq!(accent.cursor, 3);
}
