use mintl::board::{Board, Task};
use mintl::controller::{App, AppState, Key};

fn app_with(lanes: &[&[&str]], cursor: (usize, usize)) -> App {
    App {
        board: Board {
            lanes: lanes
                .iter()
                .map(|lane| {
                    lane.iter()
                        .map(|text| Task {
                            content: text.bytes().collect(),
                        })
                        .collect()
                })
                .collect(),
        },
        state: AppState::Normal,
        exit: false,
        buffer: Vec::new(),
        cursor_pos: cursor,
    }
}

fn texts(app: &App) -> Vec<Vec<String>> {
    app.board
        .lanes
        .iter()
        .map(|lane| {
            lane.iter()
                .map(|t| String::from_utf8(t.content.clone()).unwrap())
                .collect()
        })
        .collect()
}

fn strings(lanes: &[&[&str]]) -> Vec<Vec<String>> {
    lanes
        .iter()
        .map(|lane| lane.iter().map(|s| s.to_string()).collect())
        .collect()
}

fn send(app: &mut App, text: &str) {
    for b in text.bytes() {
        app.handle_key_event(Key::Char(b));
    }
}

#[test]
fn select_lane_moves_task_and_keeps_cursor() {
    let mut app = app_with(&[&["write spec"], &[], &[]], (0, 0));
    app.handle_key_event(Key::Char(b'3'));
    assert_eq!(texts(&app), strings(&[&[], &[], &["write spec"]]));
    assert_eq!(app.cursor_pos, (0, 0));
}

#[test]
fn popup_entry_creates_a_task() {
    let mut app = App::default();
    app.handle_key_event(Key::Char(b'n'));
    assert_eq!(app.state, AppState::CreateTask);
    send(&mut app, "buy milk");
    app.handle_key_event(Key::Enter);
    assert_eq!(texts(&app), strings(&[&["buy milk"], &[], &[]]));
    assert_eq!(app.state, AppState::Normal);
    assert!(app.buffer.is_empty());
}

#[test]
fn delete_decrements_the_cursor() {
    let mut app = app_with(&[&[], &["a", "b", "c"], &[]], (1, 2));
    app.handle_key_event(Key::Char(b'd'));
    assert_eq!(texts(&app), strings(&[&[], &["a", "b"], &[]]));
    assert_eq!(app.cursor_pos, (1, 1));
}

#[test]
fn empty_submit_creates_nothing() {
    let mut app = App::default();
    app.handle_key_event(Key::Char(b'n'));
    app.handle_key_event(Key::Enter);
    assert_eq!(texts(&app), strings(&[&[], &[], &[]]));
    assert_eq!(app.state, AppState::Normal);
    assert!(app.buffer.is_empty());
}

#[test]
fn delete_first_task_keeps_cursor_at_zero() {
    let mut app = app_with(&[&["a", "b", "c"], &[], &[]], (0, 0));
    app.handle_key_event(Key::Char(b'd'));
    assert_eq!(texts(&app), strings(&[&["b", "c"], &[], &[]]));
    assert_eq!(app.cursor_pos, (0, 0));
}

#[test]
fn delete_on_empty_lane_is_ignored() {
    let mut app = app_with(&[&[], &["a"], &[]], (0, 0));
    app.handle_key_event(Key::Char(b'd'));
    assert_eq!(texts(&app), strings(&[&[], &["a"], &[]]));
    assert_eq!(app.cursor_pos, (0, 0));
}

#[test]
fn select_current_lane_is_ignored() {
    let mut app = app_with(&[&["a", "b"], &[], &[]], (0, 1));
    app.handle_key_event(Key::Char(b'1'));
    assert_eq!(texts(&app), strings(&[&["a", "b"], &[], &[]]));
    assert_eq!(app.cursor_pos, (0, 1));
}

#[test]
fn select_lane_appends_and_decrements_cursor() {
    let mut app = app_with(&[&["a", "b", "c"], &["z"], &[]], (0, 1));
    app.handle_key_event(Key::Char(b'2'));
    assert_eq!(texts(&app), strings(&[&["a", "c"], &["z", "b"], &[]]));
    assert_eq!(app.cursor_pos, (0, 0));
}

#[test]
fn move_right_clamps_cursor() {
    let mut app = app_with(&[&["a", "b", "c"], &["z"], &[]], (0, 2));
    app.handle_key_event(Key::Char(b'l'));
    assert_eq!(app.cursor_pos, (1, 0));
}

#[test]
fn move_right_to_empty_lane_resets_cursor() {
    let mut app = app_with(&[&[], &[], &[]], (1, 0));
    app.handle_key_event(Key::Right);
    assert_eq!(app.cursor_pos, (2, 0));
}

#[test]
fn move_right_at_last_lane_is_ignored() {
    let mut app = app_with(&[&[], &[], &["a"]], (2, 0));
    app.handle_key_event(Key::Char(b'l'));
    assert_eq!(app.cursor_pos, (2, 0));
}

#[test]
fn move_left_clamps_cursor() {
    let mut app = app_with(&[&["a"], &["x", "y", "z"], &[]], (1, 2));
    app.handle_key_event(Key::Left);
    assert_eq!(app.cursor_pos, (0, 0));
}

#[test]
fn move_left_at_first_lane_is_ignored() {
    let mut app = app_with(&[&["a"], &[], &[]], (0, 0));
    app.handle_key_event(Key::Char(b'h'));
    assert_eq!(app.cursor_pos, (0, 0));
}

#[test]
fn move_up_and_down_stay_in_bounds() {
    let mut app = app_with(&[&["a", "b"], &[], &[]], (0, 0));
    app.handle_key_event(Key::Char(b'k'));
    assert_eq!(app.cursor_pos, (0, 0));
    app.handle_key_event(Key::Char(b'j'));
    assert_eq!(app.cursor_pos, (0, 1));
    app.handle_key_event(Key::Down);
    assert_eq!(app.cursor_pos, (0, 1));
    app.handle_key_event(Key::Up);
    assert_eq!(app.cursor_pos, (0, 0));
}

#[test]
fn move_down_on_empty_lane_is_ignored() {
    let mut app = app_with(&[&[], &[], &[]], (0, 0));
    app.handle_key_event(Key::Char(b'j'));
    assert_eq!(app.cursor_pos, (0, 0));
}

#[test]
fn quit_raises_the_exit_flag() {
    let mut app = App::default();
    assert!(!app.exit);
    app.handle_key_event(Key::Char(b'q'));
    assert!(app.exit);
}

#[test]
fn quit_is_a_plain_character_while_editing() {
    let mut app = App::default();
    app.handle_key_event(Key::Char(b'n'));
    app.handle_key_event(Key::Char(b'q'));
    assert!(!app.exit);
    assert_eq!(app.buffer, b"q".to_vec());
}

#[test]
fn backspace_drops_the_last_character() {
    let mut app = App::default();
    app.handle_key_event(Key::Char(b'n'));
    send(&mut app, "ab");
    app.handle_key_event(Key::Backspace);
    assert_eq!(app.buffer, b"a".to_vec());
}

#[test]
fn backspace_on_empty_buffer_is_ignored() {
    let mut app = App::default();
    app.handle_key_event(Key::Char(b'n'));
    app.handle_key_event(Key::Backspace);
    assert!(app.buffer.is_empty());
    assert_eq!(app.state, AppState::CreateTask);
}

#[test]
fn escape_discards_the_buffer() {
    let mut app = App::default();
    app.handle_key_event(Key::Char(b'n'));
    send(&mut app, "half a tho");
    app.handle_key_event(Key::Esc);
    assert!(app.buffer.is_empty());
    assert_eq!(app.state, AppState::Normal);
    assert_eq!(texts(&app), strings(&[&[], &[], &[]]));
}

#[test]
fn unbound_keys_are_ignored_in_both_modes() {
    let mut app = app_with(&[&["a"], &[], &[]], (0, 0));
    app.handle_key_event(Key::Char(b'x'));
    app.handle_key_event(Key::Other);
    assert_eq!(texts(&app), strings(&[&["a"], &[], &[]]));
    assert_eq!(app.state, AppState::Normal);
    app.handle_key_event(Key::Char(b'n'));
    app.handle_key_event(Key::Other);
    app.handle_key_event(Key::Left);
    assert_eq!(app.state, AppState::CreateTask);
    assert_eq!(app.cursor_pos, (0, 0));
}

#[test]
fn new_task_keeps_the_buffer() {
    let mut app = App::default();
    app.buffer = b"xy".to_vec();
    app.handle_key_event(Key::Char(b'n'));
    assert_eq!(app.state, AppState::CreateTask);
    assert_eq!(app.buffer, b"xy".to_vec());
}

#[test]
fn from_bytes_restores_a_saved_board() {
    let bytes: Vec<u8> = b"a\tb\nc".to_vec();
    let app = App::from_bytes(&bytes);
    assert_eq!(texts(&app), strings(&[&["a", "b"], &["c"], &[]]));
    assert_eq!(app.state, AppState::Normal);
    assert_eq!(app.cursor_pos, (0, 0));
    assert!(!app.exit);
    assert!(app.buffer.is_empty());
}

#[test]
fn tasks_to_chars_matches_the_board() {
    let mut app = App::default();
    app.handle_key_event(Key::Char(b'n'));
    send(&mut app, "a");
    app.handle_key_event(Key::Enter);
    app.handle_key_event(Key::Char(b'n'));
    send(&mut app, "b");
    app.handle_key_event(Key::Enter);
    app.handle_key_event(Key::Char(b'3'));
    assert_eq!(app.tasks_to_chars(), b"b\n\na".to_vec());
}

#[test]
fn lanes_and_cursor_stay_valid_after_many_operations() {
    let mut app = App::default();
    let script: &[Key] = &[
        Key::Char(b'n'),
        Key::Char(b'a'),
        Key::Enter,
        Key::Char(b'n'),
        Key::Char(b'b'),
        Key::Enter,
        Key::Char(b'n'),
        Key::Char(b'c'),
        Key::Enter,
        Key::Char(b'j'),
        Key::Char(b'2'),
        Key::Char(b'l'),
        Key::Char(b'3'),
        Key::Char(b'd'),
        Key::Left,
        Key::Down,
        Key::Char(b'1'),
        Key::Up,
        Key::Char(b'd'),
        Key::Char(b'd'),
        Key::Right,
        Key::Right,
        Key::Right,
        Key::Char(b'd'),
    ];
    for key in script {
        app.handle_key_event(*key);
        assert_eq!(app.board.lanes.len(), 3);
        let (lane, task) = app.cursor_pos;
        assert!(lane < 3);
        if app.board.lanes[lane].is_empty() {
            assert_eq!(task, 0);
        } else {
            assert!(task < app.board.lanes[lane].len());
        }
    }
}

#[test]
fn default_state_is_normal() {
    let state: AppState = Default::default();
    assert_eq!(state, AppState::Normal);
    let app = App::default();
    assert_eq!(app.state, AppState::Normal);
    assert_eq!(app.cursor_pos, (0, 0));
    assert!(!app.exit);
    assert!(app.buffer.is_empty());
    assert_eq!(texts(&app), strings(&[&[], &[], &[]]));
}
