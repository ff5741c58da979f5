use crate::message::{MessageModel, MessageType};
use crate::registry::{
    after_remove, after_set_pseudonym, chat_notice, file_notice, join_notice, leave_notice,
    notice_view, Broadcast, Registry,
};
use vstd::prelude::*;

verus! {

/// What the handler of one connection does after a message: what to
/// broadcast, and whether to go on reading from that connection.
pub struct Step {
    pub broadcast: Option<Broadcast>,
    pub keep_reading: bool,
}

/// Acts on one message that arrived from the connection at `from`.
///
/// A `Pseudonym` names the sender and announces it to the others; a chat
/// message goes to everyone; a file goes to everyone but the sender; a
/// `Leave` removes the address it carries and ends the handler. Commands
/// are only for the log, and the other kinds are ignored: neither changes
/// the registry or sends anything.
pub fn handle_message(registry: &mut Registry, from: &str, message: MessageType) -> (r: Step)
    requires
        old(registry).wf(),
    ensures
        final(registry).wf(),
        match message@ {
            MessageModel::Pseudonym(name) => {
                &&& final(registry)@ == after_set_pseudonym(old(registry)@, from@, name)
                &&& notice_view(r.broadcast) == join_notice(old(registry)@, from@, name)
                &&& r.keep_reading
            },
            MessageModel::Message(p, t) => {
                &&& final(registry)@ == old(registry)@
                &&& notice_view(r.broadcast) == Some(chat_notice(old(registry)@, p, t))
                &&& r.keep_reading
            },
            MessageModel::File(n, d) => {
                &&& final(registry)@ == old(registry)@
                &&& notice_view(r.broadcast) == Some(file_notice(old(registry)@, from@, n, d))
                &&& r.keep_reading
            },
            MessageModel::Leave(a) => {
                &&& final(registry)@ == after_remove(old(registry)@, a)
                &&& notice_view(r.broadcast) == leave_notice(old(registry)@, a)
                &&& !r.keep_reading
            },
            _ => {
                &&& final(registry)@ == old(registry)@
                &&& r.broadcast is None
                &&& r.keep_reading
            },
        },
{
    match message {
        MessageType::Pseudonym(name) => {
            Step { broadcast: registry.set_pseudonym(from, name), keep_reading: true }
        },
        MessageType::Message(p, t) => {
            Step { broadcast: Some(registry.broadcast_chat(p, t)), keep_reading: true }
        },
        MessageType::File(n, d) => {
            Step { broadcast: Some(registry.broadcast_file(from, n, d)), keep_reading: true }
        },
        MessageType::Leave(a) => {
            Step { broadcast: registry.remove(a.as_str()), keep_reading: false }
        },
        _ => Step { broadcast: None, keep_reading: true },
    }
}

} // verus!
