use ocwatch::text::{
    chars_of, join_chars, lines_of, number_of, number_text, path_parts_of, replace_text,
    split_chars, splitn_chars, string_of, take_text, text_before, text_contains, text_ends_with,
    text_starts_with, trim_both_char, trim_white, words_of,
};
use ocwatch::types::{make_key, SessionInfo, SessionState};

fn session(host: &str, id: &str, age: u64) -> SessionInfo {
    SessionInfo {
        id: id.to_string(),
        host: host.to_string(),
        state: SessionState::Idle,
        parent_id: None,
        title: "title".to_string(),
        working_dir: "/srv".to_string(),
        activity_age_secs: age,
        oc_port: 4096,
        tmux_session: None,
        tmux_window: None,
        tmux_pane: None,
    }
}

fn texts(parts: &[Vec<char>]) -> Vec<String> {
    parts.iter().map(|part| string_of(part)).collect()
}

#[test]
fn status_words_in_snake_and_camel_case() {
    let cases = [
        ("busy", SessionState::Busy),
        ("running", SessionState::Busy),
        ("idle", SessionState::Idle),
        ("waiting_for_permission", SessionState::WaitingForPermission),
        ("waitingForPermission", SessionState::WaitingForPermission),
        ("waiting_for_input", SessionState::WaitingForInput),
        ("waitingForInput", SessionState::WaitingForInput),
        ("ERROR", SessionState::Error),
        ("Compacting", SessionState::Compacting),
        ("completed", SessionState::Completed),
        ("done", SessionState::Completed),
        ("disconnected", SessionState::Disconnected),
        ("", SessionState::Unknown),
        ("idle ", SessionState::Unknown),
        ("İdle", SessionState::Unknown),
    ];
    for (word, state) in cases {
        assert_eq!(SessionState::from_oc_str(word), state, "{}", word);
    }
}

#[test]
fn bells_labels_icons_and_names() {
    let rows = [
        (SessionState::Busy, false, "B", "◐", "Busy"),
        (SessionState::Idle, true, "I", "●", "Idle"),
        (SessionState::WaitingForPermission, true, "W", "◉", "Waiting for Permission"),
        (SessionState::WaitingForInput, true, "W", "?", "Waiting for Input"),
        (SessionState::Error, true, "E", "✗", "Error"),
        (SessionState::Compacting, false, "C", "⟳", "Compacting"),
        (SessionState::Completed, false, "D", "✓", "Completed"),
        (SessionState::Disconnected, false, "X", "○", "Disconnected"),
        (SessionState::Unknown, false, "?", "·", "Unknown"),
    ];
    for (state, bell, label, icon, name) in rows {
        assert_eq!(state.should_bell(), bell);
        assert_eq!(state.short_label(), label);
        assert_eq!(state.icon(), icon);
        assert_eq!(state.name(), name);
    }
}

#[test]
fn ages_in_words() {
    let cases = [
        (0, "0s"),
        (45, "45s"),
        (59, "59s"),
        (60, "1m 0s"),
        (3599, "59m 59s"),
        (3600, "1h 0m"),
        (4980, "1h 23m"),
        (90061, "25h 1m"),
    ];
    for (age, words) in cases {
        assert_eq!(session("local", "a", age).activity_age_human(), words);
    }
}

#[test]
fn keys_join_host_and_id() {
    assert_eq!(session("local", "ses_1", 0).key(), "local:ses_1");
    assert_eq!(make_key("a", "b:c"), "a:b:c");
    assert_ne!(make_key("a", "bc"), make_key("ab", "c"));
}

#[test]
fn splitting_and_joining() {
    let path = chars_of("/srv//app/");
    assert_eq!(texts(&split_chars(&path, '/')), ["", "srv", "", "app", ""]);
    assert_eq!(texts(&path_parts_of(&path)), ["srv", "app"]);
    assert_eq!(join_chars(&split_chars(&path, '/'), "/"), "/srv//app/");
    let fields = chars_of("a|b|c|d");
    assert_eq!(texts(&splitn_chars(&fields, 3, '|')), ["a", "b", "c|d"]);
    assert_eq!(texts(&splitn_chars(&fields, 9, '|')), ["a", "b", "c", "d"]);
    assert_eq!(texts(&words_of(&chars_of("  a\tb \u{a0}c\u{3000}d "))), ["a", "b", "c", "d"]);
    assert_eq!(texts(&lines_of(&chars_of("a\r\nb\n\nc"))), ["a", "b", "", "c"]);
    assert_eq!(texts(&lines_of(&chars_of("a\n"))), ["a"]);
    assert_eq!(lines_of(&chars_of("")).len(), 0);
}

#[test]
fn trimming_and_replacing() {
    assert_eq!(string_of(&trim_white(&chars_of(" \u{2003}x y\n"))), "x y");
    assert_eq!(string_of(&trim_both_char(&chars_of("--a-b--"), '-')), "a-b");
    assert_eq!(replace_text("it's", '\'', "''"), "it''s");
    assert_eq!(take_text("äöü", 2), "äö");
    assert_eq!(take_text("ä", 5), "ä");
}

#[test]
fn searching_and_ordering() {
    assert!(text_starts_with("host:1", "host:"));
    assert!(!text_starts_with("hos", "host"));
    assert!(text_ends_with("host:1", ":1"));
    assert!(text_contains("xopencodey", "opencode"));
    assert!(!text_contains("open code", "opencode"));
    assert!(text_before("a", "b"));
    assert!(text_before("a", "ab"));
    assert!(!text_before("b", "ab"));
    assert!(!text_before("a", "a"));
}

#[test]
fn numbers_there_and_back() {
    for n in [0u64, 7, 10, 4096, u64::MAX] {
        let text = number_text(n);
        assert_eq!(text, n.to_string());
        assert_eq!(number_of(&chars_of(&text), u64::MAX), Some(n));
    }
    assert_eq!(number_of(&chars_of("+12"), 100), Some(12));
    assert_eq!(number_of(&chars_of("101"), 100), None);
    assert_eq!(number_of(&chars_of(""), 100), None);
    assert_eq!(number_of(&chars_of("+"), 100), None);
    assert_eq!(number_of(&chars_of("1a"), 100), None);
    assert_eq!(number_of(&chars_of("-1"), 100), None);
}

#[test]
fn white_space_of_all_characters() {
    let white = |c: char| {
        matches!(
            c,
            '\t'..='\r'
                | ' '
                | '\u{85}'
                | '\u{a0}'
                | '\u{1680}'
                | '\u{2000}'..='\u{200a}'
                | '\u{2028}'
                | '\u{2029}'
                | '\u{202f}'
                | '\u{205f}'
                | '\u{3000}'
        )
    };
    for c in '\0'..=char::MAX {
        assert_eq!(trim_white(&[c]).is_empty(), white(c), "{:?}", c);
    }
}

#[test]
fn names_of_states_read_back() {
    let names = [
        (SessionState::Busy, "busy"),
        (SessionState::Idle, "idle"),
        (SessionState::WaitingForPermission, "waiting_for_permission"),
        (SessionState::WaitingForInput, "waiting_for_input"),
        (SessionState::Error, "error"),
        (SessionState::Compacting, "compacting"),
        (SessionState::Completed, "completed"),
        (SessionState::Disconnected, "disconnected"),
        (SessionState::Unknown, "unknown"),
    ];
    for (state, name) in names {
        let compact = name.replace('_', "");
        for text in [name, compact.as_str()] {
            assert_eq!(SessionState::from_oc_str(text), state);
            assert_eq!(SessionState::from_oc_str(&text.to_uppercase()), state);
        }
    }
    let camel = SessionState::from_oc_str("waitingForPermission");
    assert_eq!(camel, SessionState::WaitingForPermission);
}
