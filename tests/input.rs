use lan_chat::input::{
    decide_line, interpret_line, pseudonym_ok, CommandKind, LineAction, MAX_NAME_LENGTH,
};
use lan_chat::message::MessageType;

fn words(v: &[&str]) -> Vec<String> {
    v.iter().map(|s| s.to_string()).collect()
}

#[test]
fn plain_text_is_a_chat_message() {
    assert_eq!(
        interpret_line("  hello there  ", "bob"),
        LineAction::Chat(MessageType::Message("bob".to_string(), "hello there".to_string()))
    );
}

#[test]
fn shortcodes_are_replaced_before_sending() {
    assert_eq!(
        interpret_line("nice :thumbsup:", "amy"),
        LineAction::Chat(MessageType::Message("amy".to_string(), "nice 👍".to_string()))
    );
}

#[test]
fn blank_lines_send_nothing() {
    assert_eq!(interpret_line("", "bob"), LineAction::Nothing);
    assert_eq!(interpret_line("   \t ", "bob"), LineAction::Nothing);
}

#[test]
fn commands_are_recognised() {
    assert_eq!(interpret_line("/help", "b"), LineAction::Command(CommandKind::Help, "help".to_string()));
    assert_eq!(interpret_line(" /quit ", "b"), LineAction::Command(CommandKind::Quit, "quit".to_string()));
    assert_eq!(
        interpret_line("/file  notes.txt extra", "b"),
        LineAction::Command(CommandKind::File("notes.txt".to_string()), "file  notes.txt extra".to_string())
    );
    assert_eq!(interpret_line("/file", "b"), LineAction::Command(CommandKind::MissingPath, "file".to_string()));
    assert_eq!(interpret_line("/image x.png", "b"), LineAction::Command(CommandKind::Image, "image x.png".to_string()));
    assert_eq!(interpret_line("/dance", "b"), LineAction::Command(CommandKind::Unknown, "dance".to_string()));
    assert_eq!(interpret_line("/", "b"), LineAction::Command(CommandKind::Unknown, String::new()));
}

#[test]
fn decide_line_uses_the_given_words() {
    assert_eq!(
        decide_line("/file a b", &words(&["file", "a", "b"]), "b"),
        LineAction::Command(CommandKind::File("a".to_string()), "file a b".to_string())
    );
    assert_eq!(
        decide_line("/Help", &words(&["Help"]), "b"),
        LineAction::Command(CommandKind::Unknown, "Help".to_string())
    );
    assert_eq!(decide_line("", &Vec::new(), "b"), LineAction::Nothing);
}

#[test]
fn pseudonyms_must_be_short_and_not_empty() {
    assert!(pseudonym_ok("bob"));
    assert!(pseudonym_ok(&"x".repeat(MAX_NAME_LENGTH)));
    assert!(!pseudonym_ok(&"x".repeat(MAX_NAME_LENGTH + 1)));
    assert!(!pseudonym_ok(""));
    // the limit counts bytes: five two-byte letters fit, six do not
    assert!(pseudonym_ok("ééééé"));
    assert!(!pseudonym_ok("éééééé"));
}
