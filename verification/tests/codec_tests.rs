use mintl::board::Task;
use mintl::codec::{content_to_task, tasks_to_chars};

fn board(lanes: &[&[&str]]) -> Vec<Vec<Task>> {
    lanes
        .iter()
        .map(|lane| {
            lane.iter()
                .map(|text| Task {
                    content: text.bytes().collect(),
                })
                .collect()
        })
        .collect()
}

fn texts(tasks: &[Vec<Task>]) -> Vec<Vec<String>> {
    tasks
        .iter()
        .map(|lane| {
            lane.iter()
                .map(|t| String::from_utf8(t.content.clone()).unwrap())
                .collect()
        })
        .collect()
}

#[test]
fn encode_two_lanes_exact_bytes() {
    let tasks = board(&[&["a", "b"], &["c"], &[]]);
    let bytes = tasks_to_chars(&tasks);
    assert_eq!(bytes, b"a\tb\nc\n".to_vec());
}

#[test]
fn decode_two_lanes_exact_board() {
    let bytes: Vec<u8> = b"a\tb\nc\n".to_vec();
    let tasks = content_to_task(&bytes);
    assert_eq!(
        texts(&tasks),
        vec![vec!["a".to_string(), "b".to_string()], vec!["c".to_string()], vec![]]
    );
}

#[test]
fn encode_empty_board() {
    let tasks = board(&[&[], &[], &[]]);
    assert_eq!(tasks_to_chars(&tasks), b"\n\n".to_vec());
}

#[test]
fn encode_single_task() {
    let tasks = board(&[&["a"], &[], &[]]);
    assert_eq!(tasks_to_chars(&tasks), b"a\n\n".to_vec());
}

#[test]
fn encode_later_lanes() {
    let tasks = board(&[&[], &["c"], &["d", "e"]]);
    assert_eq!(tasks_to_chars(&tasks), b"\nc\nd\te".to_vec());
}

#[test]
fn decode_empty_input() {
    let bytes: Vec<u8> = Vec::new();
    let tasks = content_to_task(&bytes);
    assert_eq!(tasks.len(), 3);
    assert!(tasks.iter().all(|lane| lane.is_empty()));
}

#[test]
fn decode_missing_lanes() {
    let bytes: Vec<u8> = b"a".to_vec();
    let tasks = content_to_task(&bytes);
    assert_eq!(texts(&tasks), vec![vec!["a".to_string()], vec![], vec![]]);
}

#[test]
fn decode_empty_first_lane() {
    let bytes: Vec<u8> = b"\nc".to_vec();
    let tasks = content_to_task(&bytes);
    assert_eq!(texts(&tasks), vec![vec![], vec!["c".to_string()], vec![]]);
}

#[test]
fn decode_ignores_extra_segments() {
    let bytes: Vec<u8> = b"a\nb\nc\nd".to_vec();
    let tasks = content_to_task(&bytes);
    assert_eq!(
        texts(&tasks),
        vec![vec!["a".to_string()], vec!["b".to_string()], vec!["c".to_string()]]
    );
}

#[test]
fn decode_lone_tab_gives_two_empty_tasks() {
    let bytes: Vec<u8> = b"\t".to_vec();
    let tasks = content_to_task(&bytes);
    assert_eq!(
        texts(&tasks),
        vec![vec!["".to_string(), "".to_string()], vec![], vec![]]
    );
}

#[test]
fn round_trip_typical_board() {
    let tasks = board(&[&["write spec"], &["review", "polish"], &["ship it"]]);
    let back = content_to_task(&tasks_to_chars(&tasks));
    assert_eq!(texts(&back), texts(&tasks));
}

#[test]
fn round_trip_empty_middle_lane() {
    let tasks = board(&[&["a"], &[], &["z"]]);
    let back = content_to_task(&tasks_to_chars(&tasks));
    assert_eq!(texts(&back), texts(&tasks));
}

#[test]
fn round_trip_empty_text_beside_other_tasks() {
    let tasks = board(&[&["", "a"], &["b", ""], &[]]);
    let back = content_to_task(&tasks_to_chars(&tasks));
    assert_eq!(texts(&back), texts(&tasks));
}

#[test]
fn round_trip_empty_board() {
    let tasks = board(&[&[], &[], &[]]);
    let back = content_to_task(&tasks_to_chars(&tasks));
    assert_eq!(texts(&back), texts(&tasks));
}
