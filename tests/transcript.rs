use lan_chat::message::MessageType;
use lan_chat::transcript::{center, transcript_line, Tone, TranscriptLine};

fn line(text: &str, tone: Tone) -> Option<TranscriptLine> {
    Some(TranscriptLine { text: text.to_string(), tone })
}

#[test]
fn names_are_centred_like_the_formatter_does() {
    assert_eq!(center("bob", 10), format!("{:^10}", "bob"));
    assert_eq!(center("alice", 10), format!("{:^10}", "alice"));
    assert_eq!(center("zoë", 10), format!("{:^10}", "zoë"));
    assert_eq!(center("", 3), "   ");
    assert_eq!(center("exactlyten", 10), "exactlyten");
    assert_eq!(center("longer than ten", 10), "longer than ten");
}

#[test]
fn each_kind_is_shown_in_its_tone() {
    assert_eq!(transcript_line(&MessageType::Info("hello".to_string())), line("hello", Tone::Notice));
    assert_eq!(
        transcript_line(&MessageType::Leave("alice".to_string())),
        line("alice has left the chat", Tone::Departure)
    );
    assert_eq!(
        transcript_line(&MessageType::Message("bob".to_string(), "hi".to_string())),
        line("   bob    : hi", Tone::Chat)
    );
    assert_eq!(transcript_line(&MessageType::Error("oops".to_string())), line("oops", Tone::Failure));
}

#[test]
fn commands_handshakes_and_attachments_are_not_shown() {
    assert_eq!(transcript_line(&MessageType::Command("help".to_string())), None);
    assert_eq!(transcript_line(&MessageType::Pseudonym("bob".to_string())), None);
    assert_eq!(transcript_line(&MessageType::Image("i".to_string(), vec![1])), None);
    assert_eq!(transcript_line(&MessageType::File("f".to_string(), vec![1])), None);
}
