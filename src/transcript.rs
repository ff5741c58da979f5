use crate::input::MAX_NAME_LENGTH;
use crate::message::{MessageModel, MessageType};
use vstd::prelude::*;
use vstd::string::StringExecFns;

verus! {

/// The width that pseudonyms are centred in.
pub const NAME_WIDTH: usize = MAX_NAME_LENGTH;

/// How a line of the transcript is coloured.
#[derive(Debug, Clone, Copy, PartialEq, Eq, Structural)]
pub enum Tone {
    /// Notices from the server or the session.
    Notice,
    /// A departure.
    Departure,
    /// A chat message.
    Chat,
    /// A failure.
    Failure,
}

/// A line to show in the transcript.
#[derive(Debug, Clone, PartialEq, Eq)]
pub struct TranscriptLine {
    pub text: String,
    pub tone: Tone,
}

/// `n` spaces.
pub open spec fn spaces(n: nat) -> Seq<char> {
    Seq::new(n, |i: int| ' ')
}

/// `s` centred in `width` columns: the padding is split in two, the
/// smaller half on the left; a string as wide or wider is left as it is.
pub open spec fn centered(s: Seq<char>, width: nat) -> Seq<char> {
    if s.len() >= width {
        s
    } else {
        let pad = (width - s.len()) as nat;
        spaces(pad / 2) + s + spaces((pad - pad / 2) as nat)
    }
}

/// What the transcript shows for a message that is not a file: notices and
/// failures as they are, a departure as "`name` has left the chat", and a
/// chat message as its centred author, a colon and the text. Commands,
/// handshakes and images are not shown.
pub open spec fn shown(m: MessageModel) -> Option<(Seq<char>, Tone)> {
    match m {
        MessageModel::Info(s) => Some((s, Tone::Notice)),
        MessageModel::Leave(p) => Some((p + " has left the chat"@, Tone::Departure)),
        MessageModel::Message(p, t) => Some((centered(p, NAME_WIDTH as nat) + ": "@ + t, Tone::Chat)),
        MessageModel::Error(s) => Some((s, Tone::Failure)),
        _ => None,
    }
}

/// Appends `n` spaces to `out`.
fn push_spaces(out: &mut String, n: usize)
    ensures
        final(out)@ == old(out)@ + spaces(n as nat),
{
    let mut i: usize = 0;
    while i < n
        invariant
            i <= n,
            out@ == old(out)@ + spaces(i as nat),
        decreases n - i,
    {
        proof {
            reveal_strlit(" ");
        }
        out.append(" ");
        i = i + 1;
        assert(out@ =~= old(out)@ + spaces(i as nat));
    }
}

/// `s` centred in `width` columns (see `centered`).
pub fn center(s: &str, width: usize) -> (r: String)
    ensures
        r@ == centered(s@, width as nat),
{
    let len = s.unicode_len();
    if len >= width {
        return s.to_owned();
    }
    let pad = width - len;
    let mut r = String::new();
    push_spaces(&mut r, pad / 2);
    r.append(s);
    push_spaces(&mut r, pad - pad / 2);
    r
}

/// The transcript line of a message that is not a file (see `shown`); a
/// file is shown once the client has saved it.
pub fn transcript_line(m: &MessageType) -> (r: Option<TranscriptLine>)
    ensures
        match r {
            Some(l) => shown(m@) == Some((l.text@, l.tone)),
            None => shown(m@) is None,
        },
{
    match m {
        MessageType::Info(s) => Some(TranscriptLine { text: s.clone(), tone: Tone::Notice }),
        MessageType::Leave(p) => {
            let mut text = p.clone();
            text.append(" has left the chat");
            Some(TranscriptLine { text, tone: Tone::Departure })
        },
        MessageType::Message(p, t) => {
            let mut text = center(p.as_str(), NAME_WIDTH);
            text.append(": ");
            text.append(t.as_str());
            Some(TranscriptLine { text, tone: Tone::Chat })
        },
        MessageType::Error(s) => Some(TranscriptLine { text: s.clone(), tone: Tone::Failure }),
        _ => None,
    }
}

} // verus!
