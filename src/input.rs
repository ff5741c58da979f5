use crate::emoji::{replace_keywords_with_emojis, with_emojis};
use crate::message::{MessageModel, MessageType};
use crate::registry::string_views;
use vstd::prelude::*;
use vstd::utf8::encode_utf8;

verus! {

/// The longest pseudonym, in bytes.
pub const MAX_NAME_LENGTH: usize = 10;

/// A pseudonym is accepted when it is not empty and takes at most
/// `MAX_NAME_LENGTH` bytes.
pub fn pseudonym_ok(p: &str) -> (r: bool)
    ensures
        r == (0 < encode_utf8(p@).len() <= MAX_NAME_LENGTH),
{
    let n = p.as_bytes().len();
    n > 0 && n <= MAX_NAME_LENGTH
}

/// A string without its leading and trailing whitespace, as `str::trim`
/// gives it.
pub uninterp spec fn trimmed(s: Seq<char>) -> Seq<char>;

/// The whitespace-separated words of a string, as `str::split_whitespace`
/// gives them.
pub uninterp spec fn words_of(s: Seq<char>) -> Seq<Seq<char>>;

/// Relies on `str::trim`: the string without leading and trailing whitespace.
#[verifier::external_body]
fn trim_line(s: &str) -> (r: String)
    ensures
        r@ == trimmed(s@),
{
    s.trim().to_owned()
}

/// Relies on `str::split_whitespace`: the words of the string, in order.
#[verifier::external_body]
fn split_words(s: &str) -> (r: Vec<String>)
    ensures
        string_views(r@) == words_of(s@),
{
    s.split_whitespace().map(|w| w.to_owned()).collect()
}

/// A slash command that the user typed.
#[derive(Debug, PartialEq, Eq, Clone)]
pub enum CommandKind {
    /// `/help`: show the list of commands.
    Help,
    /// `/quit`: announce the departure and leave.
    Quit,
    /// `/file <path>`: send the file at the path.
    File(String),
    /// `/file` without a path.
    MissingPath,
    /// `/image`: not available.
    Image,
    /// Any other command.
    Unknown,
}

/// What an entered line asks for.
#[derive(Debug, PartialEq, Eq, Clone)]
pub enum LineAction {
    /// The line is empty: nothing is sent.
    Nothing,
    /// A chat message to send.
    Chat(MessageType),
    /// A command, with the text after the slash.
    Command(CommandKind, String),
}

/// The model of a command.
pub enum CommandModel {
    Help,
    Quit,
    File(Seq<char>),
    MissingPath,
    Image,
    Unknown,
}

impl View for CommandKind {
    type V = CommandModel;

    open spec fn view(&self) -> CommandModel {
        match self {
            CommandKind::Help => CommandModel::Help,
            CommandKind::Quit => CommandModel::Quit,
            CommandKind::File(p) => CommandModel::File(p@),
            CommandKind::MissingPath => CommandModel::MissingPath,
            CommandKind::Image => CommandModel::Image,
            CommandKind::Unknown => CommandModel::Unknown,
        }
    }
}

/// The command that the words after the slash name: the first word
/// chooses it, and `file` takes the second word as its path.
pub open spec fn command_of(words: Seq<Seq<char>>) -> CommandModel {
    if words.len() == 0 {
        CommandModel::Unknown
    } else if words[0] == "help"@ {
        CommandModel::Help
    } else if words[0] == "quit"@ {
        CommandModel::Quit
    } else if words[0] == "file"@ {
        if words.len() > 1 {
            CommandModel::File(words[1])
        } else {
            CommandModel::MissingPath
        }
    } else if words[0] == "image"@ {
        CommandModel::Image
    } else {
        CommandModel::Unknown
    }
}

/// A line that opens with a slash is a command.
pub open spec fn is_command(line: Seq<char>) -> bool {
    line.len() > 0 && line[0] == '/'
}

/// `r` is what `line` asks for, where `words` are the words after its
/// slash: nothing for an empty line, a command for a line that opens with a
/// slash, and else a chat message under `pseudonym`.
pub open spec fn line_action(
    line: Seq<char>,
    words: Seq<Seq<char>>,
    pseudonym: Seq<char>,
    r: LineAction,
) -> bool {
    if line.len() == 0 {
        r is Nothing
    } else if is_command(line) {
        r matches LineAction::Command(k, text) && k@ == command_of(words) && text@
            == line.drop_first()
    } else {
        r matches LineAction::Chat(m) && m@ == MessageModel::Message(pseudonym, line)
    }
}

/// The view of a string equals the view of a literal.
fn equals(s: &String, lit: &str) -> (r: bool)
    ensures
        r == (s@ == lit@),
{
    let other = lit.to_owned();
    *s == other
}

/// What a line asks for, given the words after its slash.
pub fn decide_line(line: &str, words: &Vec<String>, pseudonym: &str) -> (r: LineAction)
    ensures
        line_action(line@, string_views(words@), pseudonym@, r),
{
    let n = line.unicode_len();
    if n == 0 {
        return LineAction::Nothing;
    }
    if line.get_char(0) != '/' {
        return LineAction::Chat(MessageType::Message(pseudonym.to_owned(), line.to_owned()));
    }
    let text = line.substring_char(1, n).to_owned();
    proof {
        assert(line@.subrange(1, n as int) =~= line@.drop_first());
    }
    let ghost w = string_views(words@);
    let kind = if words.len() == 0 {
        CommandKind::Unknown
    } else if equals(&words[0], "help") {
        CommandKind::Help
    } else if equals(&words[0], "quit") {
        CommandKind::Quit
    } else if equals(&words[0], "file") {
        if words.len() > 1 {
            CommandKind::File(words[1].clone())
        } else {
            CommandKind::MissingPath
        }
    } else if equals(&words[0], "image") {
        CommandKind::Image
    } else {
        CommandKind::Unknown
    };
    proof {
        if words.len() > 0 {
            assert(w[0] == words@[0]@);
        }
        if words.len() > 1 {
            assert(w[1] == words@[1]@);
        }
    }
    LineAction::Command(kind, text)
}

/// What the raw line typed by the user asks for: the line is trimmed and
/// its shortcodes become emojis before it is read.
pub fn interpret_line(raw: &str, pseudonym: &str) -> (r: LineAction)
    ensures
        ({
            let line = with_emojis(trimmed(raw@));
            line_action(line, words_of(line.drop_first()), pseudonym@, r)
        }),
{
    let t = trim_line(raw);
    let line = replace_keywords_with_emojis(t.as_str());
    let n = line.unicode_len();
    if n > 0 && line.get_char(0) == '/' {
        let rest = line.as_str().substring_char(1, n);
        proof {
            assert(rest@ =~= line@.drop_first());
        }
        let words = split_words(rest);
        decide_line(line.as_str(), &words, pseudonym)
    } else {
        decide_line(line.as_str(), &Vec::new(), pseudonym)
    }
}

} // verus!
