use lan_chat::client::{pick_tip, receive_into, session_banner, tip, TIP_COUNT};
use lan_chat::message::MessageType;
use lan_chat::wire::{encode, FrameBuffer};

fn info(s: &str) -> MessageType {
    MessageType::Info(s.to_string())
}

#[test]
fn banner_lists_the_session_notices_in_order() {
    let r = session_banner(
        None,
        Some("192.168.1.5:50000".to_string()),
        "192.168.1.2:40000".to_string(),
        "Type /help in the chat".to_string(),
    );
    assert_eq!(
        r,
        vec![
            info("Your ip is: 192.168.1.5:50000"),
            info("Connected to server at address: 192.168.1.2:40000"),
            info("TIP: Type /help in the chat"),
            info(""),
            info(""),
        ]
    );
}

#[test]
fn banner_reports_a_failed_handshake_first() {
    let r = session_banner(Some("broken pipe".to_string()), None, "h:1".to_string(), "t".to_string());
    assert_eq!(
        r,
        vec![
            MessageType::Error("Failed to send pseudonym to server: broken pipe".to_string()),
            info("Connected to server at address: h:1"),
            info("TIP: t"),
            info(""),
            info(""),
        ]
    );
}

#[test]
fn tips_are_the_fixed_list() {
    assert_eq!(tip(0), "Type /help in the chat");
    assert_eq!(tip(2), "Type /quit to leave program");
    assert_eq!(tip(TIP_COUNT - 1), "If you have any issues, please report them on the GitHub page.");
    let all: Vec<&str> = (0..TIP_COUNT).map(tip).collect();
    for _ in 0..20 {
        let t = pick_tip();
        assert!(all.contains(&t.as_str()));
    }
}

#[test]
fn receive_moves_whole_frames_to_the_inbox() {
    let a = MessageType::Message("bob".to_string(), "hi".to_string());
    let b = MessageType::Leave("alice".to_string());
    let c = encode(&info("later")).unwrap();
    let mut buffer = FrameBuffer::new();
    buffer.push(&encode(&a).unwrap());
    buffer.push(&encode(&b).unwrap());
    buffer.push(&c[..6]);
    let mut inbox = vec![info("start")];
    assert!(receive_into(&mut buffer, &mut inbox));
    assert_eq!(inbox, vec![info("start"), a, b]);
    buffer.push(&c[6..]);
    assert!(receive_into(&mut buffer, &mut inbox));
    assert_eq!(inbox.last(), Some(&info("later")));
}

#[test]
fn receive_stops_at_a_corrupt_frame() {
    let mut buffer = FrameBuffer::new();
    buffer.push(&encode(&info("one")).unwrap());
    buffer.push(&[0, 0, 0, 2, 200, 1]);
    buffer.push(&encode(&info("two")).unwrap());
    let mut inbox = Vec::new();
    assert!(!receive_into(&mut buffer, &mut inbox));
    assert_eq!(inbox, vec![info("one")]);
}
