use crate::message::{message_views, MessageModel, MessageType};
use crate::wire::{
    complete_frame_len, frame_fits, frame_of, lemma_frame_found, lemma_round_trip, parse_frame,
    FrameBuffer,
};
use vstd::prelude::*;
use vstd::string::StringExecFns;

verus! {

/// How many tips there are to show.
pub const TIP_COUNT: usize = 8;

/// The tip at position `i` of the list.
pub open spec fn tip_text(i: int) -> Seq<char> {
    if i == 0 {
        "Type /help in the chat"@
    } else if i == 1 {
        "Use arrow keys to see chat history"@
    } else if i == 2 {
        "Type /quit to leave program"@
    } else if i == 3 {
        "Use :smile: to insert a smiley, try :laughing: and :thumbsup: too. Look at 'gemoji' to learn more."@
    } else if i == 4 {
        "If you get 'file received' message, make sure to check your pwd (^ u ^)"@
    } else if i == 5 {
        "Petting a cat increases your life span by 101% ^._.^"@
    } else if i == 6 {
        "If you have any suggestions or feedback, please let us know!"@
    } else {
        "If you have any issues, please report them on the GitHub page."@
    }
}

/// The tip at position `i` of the list.
pub fn tip(i: usize) -> (r: &'static str)
    requires
        i < TIP_COUNT,
    ensures
        r@ == tip_text(i as int),
{
    if i == 0 {
        "Type /help in the chat"
    } else if i == 1 {
        "Use arrow keys to see chat history"
    } else if i == 2 {
        "Type /quit to leave program"
    } else if i == 3 {
        "Use :smile: to insert a smiley, try :laughing: and :thumbsup: too. Look at 'gemoji' to learn more."
    } else if i == 4 {
        "If you get 'file received' message, make sure to check your pwd (^ u ^)"
    } else if i == 5 {
        "Petting a cat increases your life span by 101% ^._.^"
    } else if i == 6 {
        "If you have any suggestions or feedback, please let us know!"
    } else {
        "If you have any issues, please report them on the GitHub page."
    }
}

/// Relies on rand's `thread_rng` and `Rng::gen_range`: a number drawn from
/// `0..n`, a range that is never empty here.
#[verifier::external_body]
fn random_below(n: usize) -> (r: usize)
    requires
        n > 0,
    ensures
        r < n,
{
    rand::Rng::gen_range(&mut rand::thread_rng(), 0..n)
}

/// A tip drawn at random from the list.
pub fn pick_tip() -> (r: String)
    ensures
        exists|i: int| 0 <= i < TIP_COUNT && r@ == tip_text(i),
{
    let i = random_below(TIP_COUNT);
    tip(i).to_owned()
}

/// `prefix` followed by `s`.
fn prefixed(prefix: &str, s: &str) -> (r: String)
    ensures
        r@ == prefix@ + s@,
{
    let mut r = prefix.to_owned();
    r.append(s);
    r
}

/// The notices that open a session, in order: the failure of the
/// handshake, if it failed; the client's own address, if known; the
/// server's address; a tip; and two blank lines.
pub open spec fn banner(
    handshake_error: Option<Seq<char>>,
    local_addr: Option<Seq<char>>,
    server_addr: Seq<char>,
    tip: Seq<char>,
) -> Seq<MessageModel> {
    (match handshake_error {
        Some(e) => seq![MessageModel::Error("Failed to send pseudonym to server: "@ + e)],
        None => Seq::empty(),
    }) + (match local_addr {
        Some(a) => seq![MessageModel::Info("Your ip is: "@ + a)],
        None => Seq::empty(),
    }) + seq![
        MessageModel::Info("Connected to server at address: "@ + server_addr),
        MessageModel::Info("TIP: "@ + tip),
        MessageModel::Info(Seq::empty()),
        MessageModel::Info(Seq::empty()),
    ]
}

/// The characters of a string that may be missing.
pub open spec fn opt_view(s: Option<String>) -> Option<Seq<char>> {
    match s {
        Some(s) => Some(s@),
        None => None,
    }
}

/// The notices shown when a session opens (see `banner`).
pub fn session_banner(
    handshake_error: Option<String>,
    local_addr: Option<String>,
    server_addr: String,
    tip: String,
) -> (r: Vec<MessageType>)
    ensures
        message_views(r@) == banner(
            opt_view(handshake_error),
            opt_view(local_addr),
            server_addr@,
            tip@,
        ),
{
    let mut r: Vec<MessageType> = Vec::new();
    match &handshake_error {
        Some(e) => r.push(
            MessageType::Error(prefixed("Failed to send pseudonym to server: ", e.as_str())),
        ),
        None => {},
    }
    match &local_addr {
        Some(a) => r.push(MessageType::Info(prefixed("Your ip is: ", a.as_str()))),
        None => {},
    }
    r.push(MessageType::Info(prefixed("Connected to server at address: ", server_addr.as_str())));
    r.push(MessageType::Info(prefixed("TIP: ", tip.as_str())));
    r.push(MessageType::Info(String::new()));
    r.push(MessageType::Info(String::new()));
    assert(message_views(r@) =~= banner(
        opt_view(handshake_error),
        opt_view(local_addr),
        server_addr@,
        tip@,
    ));
    r
}

/// What reading every whole frame out of `b` gives: the messages decoded,
/// in order, the bytes left, and `false` when a frame was corrupt (reading
/// stops there, after dropping that frame).
pub open spec fn drain(b: Seq<u8>) -> (Seq<MessageModel>, Seq<u8>, bool)
    decreases b.len(),
{
    match complete_frame_len(b) {
        None => (Seq::empty(), b, true),
        Some(n) => match parse_frame(b.take(n as int)) {
            None => (Seq::empty(), b.skip(n as int), false),
            Some(m) => {
                let rest = drain(b.skip(n as int));
                (seq![m] + rest.0, rest.1, rest.2)
            },
        },
    }
}

/// Moves every message whose frame has fully arrived from `buffer` to the
/// end of `inbox`, in order. Returns `false` when a frame was corrupt: the
/// stream can no longer be trusted and the session's reading ends.
pub fn receive_into(buffer: &mut FrameBuffer, inbox: &mut Vec<MessageType>) -> (ok: bool)
    ensures
        message_views(final(inbox)@) == message_views(old(inbox)@) + drain(old(buffer)@).0,
        final(buffer)@ == drain(old(buffer)@).1,
        ok == drain(old(buffer)@).2,
{
    loop
        invariant
            drain(old(buffer)@).1 == drain(buffer@).1,
            drain(old(buffer)@).2 == drain(buffer@).2,
            message_views(old(inbox)@) + drain(old(buffer)@).0 == message_views(inbox@) + drain(
                buffer@,
            ).0,
        decreases buffer@.len(),
    {
        let ghost before = buffer@;
        let ghost inbox_before = inbox@;
        match buffer.next_message() {
            None => {
                return true;
            },
            Some(Err(_)) => {
                return false;
            },
            Some(Ok(m)) => {
                inbox.push(m);
                proof {
                    assert(message_views(inbox@) =~= message_views(inbox_before).push(m@));
                    assert(drain(before).0 =~= seq![m@] + drain(buffer@).0);
                    assert(message_views(inbox_before) + drain(before).0 =~= message_views(
                        inbox@,
                    ) + drain(buffer@).0);
                }
            },
        }
    }
}

/// The frames of the messages, one after another.
pub open spec fn frames_of(ms: Seq<MessageModel>) -> Seq<u8>
    decreases ms.len(),
{
    if ms.len() == 0 {
        Seq::empty()
    } else {
        frame_of(ms[0]) + frames_of(ms.drop_first())
    }
}

/// Frames sent one after another arrive as the same messages, in order:
/// draining their bytes, followed by the start of a frame still on its way,
/// gives every message and leaves only that start.
pub proof fn lemma_drain_frames(ms: Seq<MessageModel>, rest: Seq<u8>)
    requires
        forall|i: int| 0 <= i < ms.len() ==> frame_fits(#[trigger] ms[i]),
        complete_frame_len(rest) is None,
    ensures
        drain(frames_of(ms) + rest) == (ms, rest, true),
    decreases ms.len(),
{
    if ms.len() == 0 {
        assert(frames_of(ms) + rest =~= rest);
    } else {
        let m = ms[0];
        let tail = frames_of(ms.drop_first()) + rest;
        assert(frames_of(ms) + rest =~= frame_of(m) + tail);
        assert(frame_fits(ms[0]));
        lemma_frame_found(m, tail);
        lemma_round_trip(m);
        assert forall|i: int| 0 <= i < ms.drop_first().len() implies frame_fits(
            #[trigger] ms.drop_first()[i],
        ) by {
            assert(frame_fits(ms[i + 1]));
        }
        lemma_drain_frames(ms.drop_first(), rest);
        assert(seq![m] + ms.drop_first() =~= ms);
    }
}

} // verus!
