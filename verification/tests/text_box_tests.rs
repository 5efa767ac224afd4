use voxel_engine::text_box::{is_control_char, TextBox, TextKey};
use voxel_engine::ui::EventProcessResult;

fn typed(s: &str) -> TextKey {
    TextKey::Other(Some(s.to_string()))
}

#[test]
fn typing_and_deleting() {
    let mut b = TextBox::new();
    assert_eq!(b.key_event(&typed("ab"), true, true), (EventProcessResult::Sink, true));
    assert_eq!(b.text(), "ab");
    assert_eq!(b.cursor(), 2);
    assert_eq!(b.key_event(&TextKey::ArrowLeft, true, true), (EventProcessResult::Sink, false));
    assert_eq!(b.cursor(), 1);
    assert_eq!(b.key_event(&typed("X"), true, true), (EventProcessResult::Sink, true));
    assert_eq!(b.text(), "aXb");
    assert_eq!(b.key_event(&TextKey::Backspace, true, true), (EventProcessResult::Sink, true));
    assert_eq!(b.text(), "ab");
    assert_eq!(b.cursor(), 1);
    assert_eq!(b.key_event(&TextKey::ArrowRight, true, true), (EventProcessResult::Sink, false));
    assert_eq!(b.key_event(&TextKey::ArrowRight, true, true), (EventProcessResult::Sink, false));
    assert_eq!(b.cursor(), 2);
}

#[test]
fn edges_of_the_text() {
    let mut b = TextBox::new();
    assert_eq!(b.key_event(&TextKey::Backspace, true, true), (EventProcessResult::Sink, false));
    assert_eq!(b.key_event(&TextKey::ArrowLeft, true, true), (EventProcessResult::Sink, false));
    assert_eq!(b.cursor(), 0);
    assert_eq!(b.key_event(&TextKey::Enter, true, true), (EventProcessResult::FocusDrop, false));
    assert_eq!(b.key_event(&TextKey::Other(None), true, true), (EventProcessResult::Nothing, false));
}

#[test]
fn unfocused_or_released_keys_are_ignored() {
    let mut b = TextBox::new();
    assert_eq!(b.key_event(&typed("a"), false, true), (EventProcessResult::Nothing, false));
    assert_eq!(b.key_event(&typed("a"), true, false), (EventProcessResult::Nothing, false));
    assert_eq!(b.text(), "");
}

#[test]
fn control_characters_are_dropped() {
    let mut b = TextBox::new();
    assert_eq!(b.key_event(&typed("\u{8}"), true, true), (EventProcessResult::Sink, false));
    assert_eq!(b.key_event(&typed("a\tb\u{85}c"), true, true), (EventProcessResult::Sink, true));
    assert_eq!(b.text(), "abc");
    assert!(is_control_char('\u{0}'));
    assert!(is_control_char('\u{9f}'));
    assert!(!is_control_char('\u{a0}'));
}

#[test]
fn limit_stops_typing() {
    let mut b = TextBox::new();
    b.set_max_text_length(2);
    assert_eq!(b.max_text_length(), 2);
    assert_eq!(b.key_event(&typed("abc"), true, true), (EventProcessResult::Sink, true));
    assert_eq!(b.text(), "abc");
    assert_eq!(b.key_event(&typed("d"), true, true), (EventProcessResult::Sink, false));
    assert_eq!(b.text(), "abc");
}

#[test]
fn cursor_counts_bytes() {
    let mut b = TextBox::new();
    assert_eq!(b.key_event(&typed("é"), true, true), (EventProcessResult::Sink, true));
    assert_eq!(b.cursor(), 2);
    assert_eq!(b.key_event(&typed("x"), true, true), (EventProcessResult::Sink, true));
    assert_eq!(b.text(), "éx");
    assert_eq!(b.key_event(&TextKey::Backspace, true, true), (EventProcessResult::Sink, true));
    assert_eq!(b.text(), "é");
}

#[test]
fn cursor_stays_within_text() {
    let mut b = TextBox::new();
    b.key_event(&typed("hi"), true, true);
    for _ in 0..5 {
        b.key_event(&TextKey::ArrowRight, true, true);
        assert!(b.cursor() <= b.text().len());
    }
    assert_eq!(b.cursor(), 2);
    b.key_event(&TextKey::Backspace, true, true);
    b.key_event(&TextKey::Backspace, true, true);
    assert_eq!(b.text(), "");
    assert_eq!(b.cursor(), 0);
    b.key_event(&TextKey::ArrowRight, true, true);
    assert_eq!(b.cursor(), 0);
}
