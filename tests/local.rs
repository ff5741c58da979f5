use lan_chat::emoji::{expand_shortcode, replace_keywords_with_emojis};
use lan_chat::netif::{choose_local_ipv4, NetInterface};

fn iface(is_loopback: bool, is_link_local: bool, ipv4: Option<[u8; 4]>) -> NetInterface {
    NetInterface { is_loopback, is_link_local, ipv4 }
}

#[test]
fn the_first_lan_ipv4_address_is_chosen() {
    let list = vec![
        iface(true, false, Some([127, 0, 0, 1])),
        iface(false, true, Some([169, 254, 3, 4])),
        iface(false, false, None),
        iface(false, false, Some([192, 168, 1, 20])),
        iface(false, false, Some([10, 0, 0, 7])),
    ];
    assert_eq!(choose_local_ipv4(&list), Some([192, 168, 1, 20]));
}

#[test]
fn no_lan_interface_gives_none() {
    assert_eq!(choose_local_ipv4(&Vec::new()), None);
    let list = vec![iface(true, false, Some([127, 0, 0, 1])), iface(false, false, None)];
    assert_eq!(choose_local_ipv4(&list), None);
}

#[test]
fn shortcodes_become_emojis() {
    assert_eq!(replace_keywords_with_emojis("hi :smile:"), "hi 😄");
    assert_eq!(replace_keywords_with_emojis(":thumbsup: ok :smile:!"), "👍 ok 😄!");
    assert_eq!(replace_keywords_with_emojis("plain text"), "plain text");
    assert_eq!(replace_keywords_with_emojis(""), "");
}

#[test]
fn unknown_shortcodes_are_kept() {
    assert_eq!(replace_keywords_with_emojis("a :nosuchemoji: b"), "a :nosuchemoji: b");
    assert_eq!(replace_keywords_with_emojis("::"), "::");
}

#[test]
fn an_unclosed_shortcode_is_dropped() {
    assert_eq!(replace_keywords_with_emojis("time 10:30"), "time 10");
    assert_eq!(replace_keywords_with_emojis("a:zz:c:d"), "a:zz:c");
}

#[test]
fn expansion_of_a_looked_up_word() {
    assert_eq!(expand_shortcode("smile", Some("😄".to_string())), "😄");
    assert_eq!(expand_shortcode("zzz", None), ":zzz:");
    assert_eq!(expand_shortcode("", None), "::");
}
