use vstd::prelude::*;

verus! {

/// A message exchanged between clients and the server.
///
/// Every message carries its own tag, so a frame decodes without context.
#[derive(Debug, PartialEq, Eq, Clone)]
pub enum MessageType {
    /// A notice from the server.
    Info(String),
    /// A client's departure, carrying its pseudonym or address.
    Leave(String),
    /// A chat message: the author's pseudonym and the text.
    Message(String, String),
    /// A failure notice.
    Error(String),
    /// A slash command that a client ran.
    Command(String),
    /// The handshake: the name a client wants to be shown under.
    Pseudonym(String),
    /// A file: its name and its content.
    File(String, Vec<u8>),
    /// An image: its name and its content.
    Image(String, Vec<u8>),
}

/// The mathematical value of a message.
pub enum MessageModel {
    Info(Seq<char>),
    Leave(Seq<char>),
    Message(Seq<char>, Seq<char>),
    Error(Seq<char>),
    Command(Seq<char>),
    Pseudonym(Seq<char>),
    File(Seq<char>, Seq<u8>),
    Image(Seq<char>, Seq<u8>),
}

impl View for MessageType {
    type V = MessageModel;

    open spec fn view(&self) -> MessageModel {
        match self {
            MessageType::Info(s) => MessageModel::Info(s@),
            MessageType::Leave(s) => MessageModel::Leave(s@),
            MessageType::Message(p, s) => MessageModel::Message(p@, s@),
            MessageType::Error(s) => MessageModel::Error(s@),
            MessageType::Command(s) => MessageModel::Command(s@),
            MessageType::Pseudonym(s) => MessageModel::Pseudonym(s@),
            MessageType::File(n, b) => MessageModel::File(n@, b@),
            MessageType::Image(n, b) => MessageModel::Image(n@, b@),
        }
    }
}

} // verus!

verus! {

/// The model of each message, in order.
pub open spec fn message_views(v: Seq<MessageType>) -> Seq<MessageModel> {
    v.map_values(|m: MessageType| m@)
}

} // verus!
