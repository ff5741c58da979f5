use lan_chat::delivery::deliver;
use lan_chat::message::MessageType;
use lan_chat::registry::{Broadcast, Registry};
use lan_chat::server::handle_message;

const ALICE: &str = "10.0.0.1:4001";
const BOB: &str = "10.0.0.2:4002";
const CAROL: &str = "10.0.0.3:4003";

fn strings(v: &[&str]) -> Vec<String> {
    v.iter().map(|s| s.to_string()).collect()
}

fn three_clients() -> Registry {
    let mut reg = Registry::new();
    assert!(reg.register(ALICE.to_string()));
    assert!(reg.register(BOB.to_string()));
    assert!(reg.register(CAROL.to_string()));
    for (addr, name) in [(ALICE, "alice"), (BOB, "bob"), (CAROL, "carol")] {
        let step = handle_message(&mut reg, addr, MessageType::Pseudonym(name.to_string()));
        assert!(step.keep_reading);
    }
    reg
}

fn unwrap(b: Option<Broadcast>) -> Broadcast {
    b.expect("a broadcast")
}

#[test]
fn register_starts_blank_and_refuses_duplicates() {
    let mut reg = Registry::new();
    assert_eq!(reg.len(), 0);
    assert!(reg.register(ALICE.to_string()));
    assert_eq!(reg.pseudonym_of(ALICE), Some("[blank]".to_string()));
    assert!(!reg.register(ALICE.to_string()));
    assert_eq!(reg.len(), 1);
    assert_eq!(reg.pseudonym_of(BOB), None);
}

#[test]
fn set_pseudonym_announces_to_the_others() {
    let mut reg = Registry::new();
    reg.register(ALICE.to_string());
    reg.register(BOB.to_string());
    let b = unwrap(reg.set_pseudonym(BOB, "bob".to_string()));
    assert_eq!(b.message, MessageType::Info("bob has entered the chat.".to_string()));
    assert_eq!(b.recipients, strings(&[ALICE]));
    assert_eq!(reg.pseudonym_of(BOB), Some("bob".to_string()));
}

#[test]
fn set_pseudonym_of_an_unknown_address_is_a_no_op() {
    let mut reg = Registry::new();
    reg.register(ALICE.to_string());
    assert!(reg.set_pseudonym(BOB, "bob".to_string()).is_none());
    assert_eq!(reg.addresses(), strings(&[ALICE]));
    assert_eq!(reg.pseudonym_of(ALICE), Some("[blank]".to_string()));
}

#[test]
fn scenario_chat_reaches_everyone_including_the_sender() {
    let mut reg = three_clients();
    let step = handle_message(&mut reg, BOB, MessageType::Message("bob".to_string(), "hi".to_string()));
    assert!(step.keep_reading);
    let b = unwrap(step.broadcast);
    assert_eq!(b.message, MessageType::Message("bob".to_string(), "hi".to_string()));
    assert_eq!(b.recipients, strings(&[ALICE, BOB, CAROL]));
}

#[test]
fn scenario_abrupt_disconnect_announces_leave_to_the_rest() {
    let mut reg = three_clients();
    // the handler saw end of stream: the connection is removed
    let b = unwrap(reg.remove(ALICE));
    assert_eq!(b.message, MessageType::Leave("alice".to_string()));
    assert_eq!(b.recipients, strings(&[BOB, CAROL]));
    assert_eq!(reg.addresses(), strings(&[BOB, CAROL]));
}

#[test]
fn scenario_file_goes_to_all_but_the_sender() {
    let mut reg = three_clients();
    let content: Vec<u8> = (0..50_000u32).map(|i| (i % 253) as u8).collect();
    let step = handle_message(
        &mut reg,
        CAROL,
        MessageType::File("report.pdf".to_string(), content.clone()),
    );
    let b = unwrap(step.broadcast);
    assert_eq!(b.message, MessageType::File("report.pdf".to_string(), content));
    assert_eq!(b.recipients, strings(&[ALICE, BOB]));
}

#[test]
fn removing_twice_broadcasts_once() {
    let mut reg = three_clients();
    assert!(reg.remove(BOB).is_some());
    assert!(reg.remove(BOB).is_none());
    assert_eq!(reg.addresses(), strings(&[ALICE, CAROL]));
}

#[test]
fn fan_out_counts() {
    let reg = three_clients();
    let chat = reg.broadcast_chat("alice".to_string(), "yo".to_string());
    assert_eq!(chat.recipients.len(), 3);
    let file = reg.broadcast_file(ALICE, "a".to_string(), vec![1]);
    assert_eq!(file.recipients.len(), 2);
    assert!(!file.recipients.contains(&ALICE.to_string()));
}

#[test]
fn leave_message_removes_and_ends_the_handler() {
    let mut reg = three_clients();
    let step = handle_message(&mut reg, CAROL, MessageType::Leave(CAROL.to_string()));
    assert!(!step.keep_reading);
    let b = unwrap(step.broadcast);
    assert_eq!(b.message, MessageType::Leave("carol".to_string()));
    assert_eq!(b.recipients, strings(&[ALICE, BOB]));
    // the cleanup after the loop finds nothing left to remove
    assert!(reg.remove(CAROL).is_none());
}

#[test]
fn commands_and_other_kinds_change_nothing() {
    let mut reg = three_clients();
    for m in [
        MessageType::Command("help".to_string()),
        MessageType::Info("x".to_string()),
        MessageType::Error("y".to_string()),
        MessageType::Image("i".to_string(), vec![1]),
    ] {
        let step = handle_message(&mut reg, ALICE, m);
        assert!(step.keep_reading);
        assert!(step.broadcast.is_none());
    }
    assert_eq!(reg.addresses(), strings(&[ALICE, BOB, CAROL]));
}

#[test]
fn one_failed_send_does_not_stop_the_others() {
    let recipients = strings(&[ALICE, BOB, CAROL]);
    let mut reached = std::cell::RefCell::new(Vec::new());
    let report = deliver(&recipients, |addr: &String| {
        reached.borrow_mut().push(addr.clone());
        addr != BOB
    });
    assert_eq!(report.sent, vec![true, false, true]);
    assert_eq!(report.failed, strings(&[BOB]));
    assert_eq!(reached.get_mut().clone(), recipients);
}

#[test]
fn delivery_to_nobody_reports_nothing() {
    let report = deliver(&Vec::new(), |_: &String| false);
    assert!(report.sent.is_empty());
    assert!(report.failed.is_empty());
}
