use vstd::prelude::*;
use vstd::string::StringExecFns;

verus! {

/// The emoji that a shortcode (such as `smile`) names, as the emojis crate
/// knows them.
pub uninterp spec fn emoji_of(code: Seq<char>) -> Option<Seq<char>>;

/// Relies on `emojis::get_by_shortcode` and `Emoji::as_str`: the emoji that
/// a shortcode names, if it names one.
#[verifier::external_body]
fn lookup_shortcode(code: &str) -> (r: Option<String>)
    ensures
        match r {
            Some(e) => emoji_of(code@) == Some(e@),
            None => emoji_of(code@) is None,
        },
{
    match emojis::get_by_shortcode(code) {
        Some(e) => Some(e.as_str().to_owned()),
        None => None,
    }
}

/// What a closed `:word:` becomes: the emoji, when the lookup found one;
/// else the shortcode as it was written, colons included.
pub open spec fn expansion(word: Seq<char>, found: Option<Seq<char>>) -> Seq<char> {
    match found {
        Some(e) => e,
        None => ":"@ + word + ":"@,
    }
}

/// The state of a left-to-right scan: the text written so far, the word
/// read since an opening colon, and whether a colon is open.
pub struct Scan {
    pub out: Seq<char>,
    pub word: Seq<char>,
    pub inside: bool,
}

/// The scan after one more character.
pub open spec fn scan_step(s: Scan, c: char) -> Scan {
    if c == ':' {
        if s.inside {
            Scan { out: s.out + expansion(s.word, emoji_of(s.word)), word: Seq::empty(), inside: false }
        } else {
            Scan { out: s.out, word: s.word, inside: true }
        }
    } else if s.inside {
        Scan { out: s.out, word: s.word.push(c), inside: true }
    } else {
        Scan { out: s.out.push(c), word: s.word, inside: false }
    }
}

/// The scan of all of `t`.
pub open spec fn scan(t: Seq<char>) -> Scan
    decreases t.len(),
{
    if t.len() == 0 {
        Scan { out: Seq::empty(), word: Seq::empty(), inside: false }
    } else {
        scan_step(scan(t.drop_last()), t.last())
    }
}

/// `t` with each `:shortcode:` replaced. A word after a colon that is
/// never closed is dropped, together with that colon.
pub open spec fn with_emojis(t: Seq<char>) -> Seq<char> {
    scan(t).out
}

/// What the closed shortcode `word` becomes, given what the lookup of
/// `word` found.
pub fn expand_shortcode(word: &str, found: Option<String>) -> (r: String)
    ensures
        r@ == expansion(
            word@,
            match found {
                Some(e) => Some(e@),
                None => None,
            },
        ),
{
    match found {
        Some(e) => e,
        None => {
            let mut r = ":".to_owned();
            r.append(word);
            r.append(":");
            r
        },
    }
}

/// Rewrites each `:shortcode:` of `text` into its emoji, and leaves a
/// shortcode that names none as it was.
pub fn replace_keywords_with_emojis(text: &str) -> (r: String)
    ensures
        r@ == with_emojis(text@),
{
    let n = text.unicode_len();
    let mut out = String::new();
    let mut inside = false;
    let mut start: usize = 0;
    let mut i: usize = 0;
    while i < n
        invariant
            n == text@.len(),
            start <= i <= n,
            scan(text@.take(i as int)) == (Scan {
                out: if inside {
                    out@
                } else {
                    out@ + text@.subrange(start as int, i as int)
                },
                word: if inside {
                    text@.subrange(start as int, i as int)
                } else {
                    Seq::empty()
                },
                inside,
            }),
        decreases n - i,
    {
        let c = text.get_char(i);
        proof {
            assert(text@.take(i + 1).drop_last() =~= text@.take(i as int));
            assert(text@.take(i + 1).last() == c);
        }
        if c == ':' {
            let piece = text.substring_char(start, i);
            if inside {
                let found = lookup_shortcode(piece);
                let e = expand_shortcode(piece, found);
                out.append(e.as_str());
            } else {
                out.append(piece);
            }
            inside = !inside;
            start = i + 1;
            proof {
                assert(text@.subrange(start as int, i + 1) =~= Seq::<char>::empty());
                assert(out@ + text@.subrange(start as int, i + 1) =~= out@);
            }
        } else {
            proof {
                assert(text@.subrange(start as int, i + 1) =~= text@.subrange(start as int, i as int).push(c));
            }
        }
        i = i + 1;
    }
    if !inside {
        let piece = text.substring_char(start, n);
        out.append(piece);
    }
    proof {
        assert(text@.take(n as int) =~= text@);
    }
    out
}

} // verus!
