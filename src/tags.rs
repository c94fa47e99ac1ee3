//! The fixed vocabulary of structural tags and the parse states they select.
use vstd::prelude::*;

verus! {

/// One of the literal markers that the model uses to delimit its output.
#[derive(Clone, Copy, Debug, PartialEq, Eq, Structural)]
pub enum Tag {
    ThinkOpen,
    ThinkClose,
    AnswerOpen,
    AnswerClose,
    EndMarker,
}

/// Which part of the model's output the classifier is currently inside.
#[derive(Clone, Copy, Debug, PartialEq, Eq, Structural)]
pub enum ParseState {
    Idle,
    Thinking,
    Answering,
}

/// The output stream that a piece of text is routed to.
#[derive(Clone, Copy, Debug, PartialEq, Eq, Structural)]
pub enum Channel {
    Thought,
    Answer,
}

/// The literal text of a tag.
pub open spec fn tag_text(t: Tag) -> Seq<char> {
    match t {
        Tag::ThinkOpen => seq!['<', 't', 'h', 'i', 'n', 'k', '>'],
        Tag::ThinkClose => seq!['<', '/', 't', 'h', 'i', 'n', 'k', '>'],
        Tag::AnswerOpen => seq!['<', 'a', 'n', 's', 'w', 'e', 'r', '>'],
        Tag::AnswerClose => seq!['<', '/', 'a', 'n', 's', 'w', 'e', 'r', '>'],
        Tag::EndMarker => seq!['<', '|', 'i', 'm', '_', 'e', 'n', 'd', '|', '>'],
    }
}

/// Length of the longest tag; a pending `<` run shorter than this may still
/// grow into a tag.
pub const LONGEST_TAG: usize = 10;

/// The state that a recognized tag selects, whatever the state before it.
pub open spec fn state_after(t: Tag) -> ParseState {
    match t {
        Tag::ThinkOpen => ParseState::Thinking,
        Tag::AnswerOpen => ParseState::Answering,
        _ => ParseState::Idle,
    }
}

/// The channel that text read in a state goes to; `None` where it is dropped.
pub open spec fn channel_of(st: ParseState) -> Option<Channel> {
    match st {
        ParseState::Thinking => Some(Channel::Thought),
        ParseState::Answering => Some(Channel::Answer),
        ParseState::Idle => None,
    }
}

/// Whether `t` occurs in `s` starting at position `p`.
pub open spec fn occurs_at(s: Seq<char>, p: int, t: Tag) -> bool {
    &&& 0 <= p
    &&& p + tag_text(t).len() <= s.len()
    &&& s.subrange(p, p + tag_text(t).len()) == tag_text(t)
}

/// The tag that starts at position `p` of `s`, if any.
pub open spec fn tag_at(s: Seq<char>, p: int) -> Option<Tag> {
    if occurs_at(s, p, Tag::ThinkOpen) {
        Some(Tag::ThinkOpen)
    } else if occurs_at(s, p, Tag::ThinkClose) {
        Some(Tag::ThinkClose)
    } else if occurs_at(s, p, Tag::AnswerOpen) {
        Some(Tag::AnswerOpen)
    } else if occurs_at(s, p, Tag::AnswerClose) {
        Some(Tag::AnswerClose)
    } else if occurs_at(s, p, Tag::EndMarker) {
        Some(Tag::EndMarker)
    } else {
        None
    }
}

/// The text of a tag, as characters.
pub fn tag_chars(t: Tag) -> (r: Vec<char>)
    ensures
        r@ == tag_text(t),
{
    let r = match t {
        Tag::ThinkOpen => vec!['<', 't', 'h', 'i', 'n', 'k', '>'],
        Tag::ThinkClose => vec!['<', '/', 't', 'h', 'i', 'n', 'k', '>'],
        Tag::AnswerOpen => vec!['<', 'a', 'n', 's', 'w', 'e', 'r', '>'],
        Tag::AnswerClose => vec!['<', '/', 'a', 'n', 's', 'w', 'e', 'r', '>'],
        Tag::EndMarker => vec!['<', '|', 'i', 'm', '_', 'e', 'n', 'd', '|', '>'],
    };
    assert(r@ =~= tag_text(t));
    r
}

/// Whether the tag `t` occurs in `s` at position `p`.
pub fn tag_occurs_at(s: &Vec<char>, p: usize, t: Tag) -> (r: bool)
    ensures
        r == occurs_at(s@, p as int, t),
{
    let pat = tag_chars(t);
    if p > s.len() || pat.len() > s.len() - p {
        return false;
    }
    let mut k: usize = 0;
    while k < pat.len()
        invariant
            p + pat.len() <= s.len(),
            pat@ == tag_text(t),
            k <= pat.len(),
            forall|j: int| 0 <= j < k ==> s@[p + j] == pat@[j],
        decreases pat.len() - k,
    {
        if s[p + k] != pat[k] {
            assert(s@.subrange(p as int, p + pat.len())[k as int] != tag_text(t)[k as int]);
            return false;
        }
        k = k + 1;
    }
    assert(s@.subrange(p as int, p + pat.len()) =~= tag_text(t));
    true
}

/// The tag that starts at position `p` of `s`, if any.
pub fn find_tag_at(s: &Vec<char>, p: usize) -> (r: Option<Tag>)
    ensures
        r == tag_at(s@, p as int),
{
    if tag_occurs_at(s, p, Tag::ThinkOpen) {
        Some(Tag::ThinkOpen)
    } else if tag_occurs_at(s, p, Tag::ThinkClose) {
        Some(Tag::ThinkClose)
    } else if tag_occurs_at(s, p, Tag::AnswerOpen) {
        Some(Tag::AnswerOpen)
    } else if tag_occurs_at(s, p, Tag::AnswerClose) {
        Some(Tag::AnswerClose)
    } else if tag_occurs_at(s, p, Tag::EndMarker) {
        Some(Tag::EndMarker)
    } else {
        None
    }
}

/// The state that a recognized tag selects.
pub fn next_state(t: Tag) -> (r: ParseState)
    ensures
        r == state_after(t),
{
    match t {
        Tag::ThinkOpen => ParseState::Thinking,
        Tag::AnswerOpen => ParseState::Answering,
        _ => ParseState::Idle,
    }
}

} // verus!
