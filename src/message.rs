//! Messages of the counting channel and the counts they carry.
use vstd::prelude::*;

use crate::number::{parse_chars, parse_spec, NumberFormat};

verus! {

/// The user that stands for "nobody" in a tip that no message carries.
pub const THE_NO_ONE: u64 = 1;

/// The message id of a tip that no message carries.
pub const NO_MESSAGE: u64 = 1;

/// A message posted in the counting channel.
#[derive(Clone, Debug)]
pub struct ChannelMessage {
    pub id: u64,
    pub author: u64,
    pub content: String,
}

/// A count: its value, who posted it, the message that carries it and the
/// notation it was written in.
#[derive(Clone, Copy, Debug, PartialEq, Eq, Structural)]
pub struct LastNumber {
    pub user: u64,
    pub count: u64,
    pub message_id: u64,
    pub number_format: NumberFormat,
}

/// Unicode `White_Space`, which separates the words of a message.
pub open spec fn is_white_space(c: char) -> bool {
    ('\u{9}' <= c && c <= '\u{d}') || c == ' ' || c == '\u{85}' || c == '\u{a0}' || c
        == '\u{1680}' || ('\u{2000}' <= c && c <= '\u{200a}') || c == '\u{2028}' || c
        == '\u{2029}' || c == '\u{202f}' || c == '\u{205f}' || c == '\u{3000}'
}

/// Whether `c` is white space.
pub fn char_is_white_space(c: char) -> (r: bool)
    ensures
        r == is_white_space(c),
{
    ('\u{9}' <= c && c <= '\u{d}') || c == ' ' || c == '\u{85}' || c == '\u{a0}' || c
        == '\u{1680}' || ('\u{2000}' <= c && c <= '\u{200a}') || c == '\u{2028}' || c
        == '\u{2029}' || c == '\u{202f}' || c == '\u{205f}' || c == '\u{3000}'
}

/// The first index at or after `i` that holds no white space.
pub open spec fn skip_white_space(s: Seq<char>, i: int) -> int
    decreases s.len() - i,
{
    if 0 <= i < s.len() && is_white_space(s[i]) {
        skip_white_space(s, i + 1)
    } else {
        i
    }
}

/// The first index at or after `i` that holds white space, or the end.
pub open spec fn skip_word(s: Seq<char>, i: int) -> int
    decreases s.len() - i,
{
    if 0 <= i < s.len() && !is_white_space(s[i]) {
        skip_word(s, i + 1)
    } else {
        i
    }
}

/// The first word of `s`: the longest run without white space after the
/// leading white space; `None` where `s` holds white space only.
pub open spec fn first_word(s: Seq<char>) -> Option<Seq<char>> {
    let a = skip_white_space(s, 0);
    if a < s.len() {
        Some(s.subrange(a, skip_word(s, a)))
    } else {
        None
    }
}

/// The first word of `text`, as its characters.
pub fn first_word_of(text: &str) -> (r: Option<Vec<char>>)
    ensures
        r is Some <==> first_word(text@) is Some,
        r is Some ==> r->0@ == first_word(text@)->0,
{
    let n = text.unicode_len();
    let ghost s = text@;
    let mut i: usize = 0;
    while i < n && char_is_white_space(text.get_char(i))
        invariant
            i <= n == s.len(),
            s == text@,
            skip_white_space(s, i as int) == skip_white_space(s, 0),
        decreases n - i,
    {
        i = i + 1;
    }
    if i == n {
        return None;
    }
    let mut word: Vec<char> = Vec::new();
    let mut j: usize = i;
    while j < n && !char_is_white_space(text.get_char(j))
        invariant
            i <= j <= n == s.len(),
            s == text@,
            skip_word(s, j as int) == skip_word(s, i as int),
            word@ == s.subrange(i as int, j as int),
        decreases n - j,
    {
        word.push(text.get_char(j));
        assert(word@ =~= s.subrange(i as int, j + 1));
        j = j + 1;
    }
    Some(word)
}

/// The count that a message carries: its first word read as a number, with
/// the message's author and id.
pub open spec fn candidate_of(m: ChannelMessage) -> Option<LastNumber> {
    match first_word(m.content@) {
        Some(w) => match parse_spec(w) {
            Some((v, f)) => Some(
                LastNumber { user: m.author, count: v, message_id: m.id, number_format: f },
            ),
            None => None,
        },
        None => None,
    }
}

/// Reads the count that `msg` carries, if any.
pub fn extract_number(msg: &ChannelMessage) -> (r: Option<LastNumber>)
    ensures
        r == candidate_of(*msg),
{
    match first_word_of(msg.content.as_str()) {
        Some(word) => match parse_chars(&word) {
            Some((v, f)) => Some(
                LastNumber { user: msg.author, count: v, message_id: msg.id, number_format: f },
            ),
            None => None,
        },
        None => None,
    }
}

/// The tip that stands when the channel holds no count: zero, from nobody.
pub open spec fn sentinel() -> LastNumber {
    LastNumber {
        user: THE_NO_ONE,
        count: 0,
        message_id: NO_MESSAGE,
        number_format: NumberFormat::Decimal,
    }
}

/// The count of the first message of `history[i..]`, other than `trigger`,
/// that carries one; the sentinel where none does.
pub open spec fn seed_from(history: Seq<ChannelMessage>, trigger: u64, i: int) -> LastNumber
    decreases history.len() - i,
{
    if 0 <= i < history.len() {
        if history[i].id != trigger && candidate_of(history[i]) is Some {
            candidate_of(history[i])->0
        } else {
            seed_from(history, trigger, i + 1)
        }
    } else {
        sentinel()
    }
}

/// The tip recovered from the channel's history, newest message first,
/// leaving out the message `trigger` that asked for the recovery.
pub open spec fn recovered_tip(history: Seq<ChannelMessage>, trigger: u64) -> LastNumber {
    seed_from(history, trigger, 0)
}

/// Recovers the tip from `history` (newest first), leaving out `trigger`.
pub fn recover_tip(history: &Vec<ChannelMessage>, trigger: u64) -> (r: LastNumber)
    ensures
        r == recovered_tip(history@, trigger),
{
    let mut i: usize = 0;
    while i < history.len()
        invariant
            i <= history@.len(),
            seed_from(history@, trigger, i as int) == recovered_tip(history@, trigger),
        decreases history@.len() - i,
    {
        let m = &history[i];
        if m.id != trigger {
            if let Some(found) = extract_number(m) {
                return found;
            }
        }
        i = i + 1;
    }
    LastNumber {
        user: THE_NO_ONE,
        count: 0,
        message_id: NO_MESSAGE,
        number_format: NumberFormat::Decimal,
    }
}

} // verus!
