//! The stream classifier: routes tag-delimited model output to channels.
//!
//! Text is fed in fragments as tokens are decoded. Recognized tags switch the
//! parse state; text between them goes to the channel of the state it was read
//! in, or is dropped while idle. A trailing run that starts at a `<` and may
//! still grow into a tag is held back until more text arrives.
use vstd::prelude::*;
use crate::tags::{
    Channel, ParseState, Tag, tag_text, state_after, channel_of, occurs_at, tag_at, tag_chars,
    find_tag_at, next_state, LONGEST_TAG,
};
use crate::text::{string_of, chars_from, push_str_chars};

verus! {

/// A piece of text routed to one channel.
#[derive(Debug)]
pub struct Event {
    pub channel: Channel,
    pub text: String,
}

impl View for Event {
    type V = (Channel, Seq<char>);

    open spec fn view(&self) -> (Channel, Seq<char>) {
        (self.channel, self.text@)
    }
}

/// The events of a vector, as channel and text.
pub open spec fn events_view(v: Seq<Event>) -> Seq<(Channel, Seq<char>)> {
    v.map_values(|e: Event| e@)
}

/// What a piece of text read in state `st` emits: one event on the state's
/// channel, or nothing when the piece is empty or the state is idle.
pub open spec fn emit(st: ParseState, piece: Seq<char>) -> Seq<(Channel, Seq<char>)> {
    if piece.len() > 0 && channel_of(st) is Some {
        seq![(channel_of(st)->0, piece)]
    } else {
        seq![]
    }
}

/// The leftmost tag in `s` at or after position `i`, with its position.
pub open spec fn first_tag_from(s: Seq<char>, i: int) -> Option<(int, Tag)>
    decreases s.len() - i,
{
    if i >= s.len() {
        None
    } else {
        match tag_at(s, i) {
            Some(t) => Some((i, t)),
            None => first_tag_from(s, i + 1),
        }
    }
}

/// The last position in `from..n` that holds a `<`.
pub open spec fn last_open_from(s: Seq<char>, from: int, n: int) -> Option<int>
    decreases n - from,
{
    if n <= from {
        None
    } else if s[n - 1] == '<' {
        Some(n - 1)
    } else {
        last_open_from(s, from, n - 1)
    }
}

/// Resolution of `s[from..]` once it holds no complete tag: a run from the
/// last `<` that is shorter than the longest tag may still become a tag, so it
/// is held back and what comes before it is emitted. Otherwise no part of the
/// rest can become a tag (a tag holds a single `<`), and all of it is emitted.
pub open spec fn hold_tail(st: ParseState, s: Seq<char>, from: int) -> (
    ParseState,
    Seq<(Channel, Seq<char>)>,
    Seq<char>,
) {
    match last_open_from(s, from, s.len() as int) {
        Some(q) => if s.len() - q < LONGEST_TAG {
            (st, emit(st, s.subrange(from, q)), s.subrange(q, s.len() as int))
        } else {
            (st, emit(st, s.subrange(from, s.len() as int)), seq![])
        },
        None => (st, emit(st, s.subrange(from, s.len() as int)), seq![]),
    }
}

/// Resolution of `s[from..]` read in state `st`: the state afterwards, the
/// events emitted, and the text left pending. The leftmost tag flushes the
/// text before it under the current state, then selects the next state.
pub open spec fn resolve_from(st: ParseState, s: Seq<char>, from: int) -> (
    ParseState,
    Seq<(Channel, Seq<char>)>,
    Seq<char>,
)
    decreases s.len() - from
    via resolve_from_decreases
{
    match first_tag_from(s, from) {
        Some((p, t)) => {
            let r = resolve_from(state_after(t), s, p + tag_text(t).len());
            (r.0, emit(st, s.subrange(from, p)) + r.1, r.2)
        },
        None => hold_tail(st, s, from),
    }
}

#[via_fn]
proof fn resolve_from_decreases(st: ParseState, s: Seq<char>, from: int) {
    lemma_first_tag_found(s, from);
}

/// Resolution of the whole buffer `s` read in state `st`.
pub open spec fn resolve(st: ParseState, s: Seq<char>) -> (
    ParseState,
    Seq<(Channel, Seq<char>)>,
    Seq<char>,
) {
    resolve_from(st, s, 0)
}

/// Text that holds no complete tag never changes the state, and read while
/// idle it emits nothing.
pub proof fn lemma_no_tag_keeps_state(st: ParseState, s: Seq<char>)
    requires
        first_tag_from(s, 0) is None,
    ensures
        resolve(st, s).0 == st,
        st == ParseState::Idle ==> resolve(st, s).1 == Seq::<(Channel, Seq<char>)>::empty(),
{
}

proof fn lemma_first_tag_found(s: Seq<char>, i: int)
    ensures
        match first_tag_from(s, i) {
            Some((p, t)) => i <= p && tag_at(s, p) == Some(t) && occurs_at(s, p, t),
            None => true,
        },
    decreases s.len() - i,
{
    if i < s.len() && tag_at(s, i) is None {
        lemma_first_tag_found(s, i + 1);
    }
}

proof fn lemma_last_open_bounds(s: Seq<char>, from: int, n: int)
    ensures
        match last_open_from(s, from, n) {
            Some(q) => from <= q < n && s[q] == '<',
            None => true,
        },
    decreases n - from,
{
    if n > from && s[n - 1] != '<' {
        lemma_last_open_bounds(s, from, n - 1);
    }
}

/// The leftmost tag in `s` at or after `from`.
fn find_tag(s: &Vec<char>, from: usize) -> (r: Option<(usize, Tag)>)
    ensures
        match first_tag_from(s@, from as int) {
            Some((p, t)) => r == Some((p as usize, t)),
            None => r is None,
        },
{
    let mut i: usize = from;
    while i < s.len()
        invariant
            from <= i,
            first_tag_from(s@, from as int) == first_tag_from(s@, i as int),
        decreases s.len() - i,
    {
        match find_tag_at(s, i) {
            Some(t) => return Some((i, t)),
            None => {},
        }
        i = i + 1;
    }
    None
}

/// The last position in `from..s.len()` that holds a `<`.
fn find_last_open(s: &Vec<char>, from: usize) -> (r: Option<usize>)
    requires
        from <= s.len(),
    ensures
        match last_open_from(s@, from as int, s.len() as int) {
            Some(q) => r == Some(q as usize),
            None => r is None,
        },
{
    let mut n: usize = s.len();
    while n > from
        invariant
            from <= n <= s.len(),
            last_open_from(s@, from as int, s.len() as int) == last_open_from(
                s@,
                from as int,
                n as int,
            ),
        decreases n,
    {
        if s[n - 1] == '<' {
            return Some(n - 1);
        }
        n = n - 1;
    }
    None
}

/// Appends to `events` what `s[from..to]` read in state `st` emits.
fn push_piece(events: &mut Vec<Event>, st: ParseState, s: &Vec<char>, from: usize, to: usize)
    requires
        from <= to <= s.len(),
    ensures
        events_view(final(events)@) == events_view(old(events)@) + emit(
            st,
            s@.subrange(from as int, to as int),
        ),
{
    let channel = if from < to {
        match st {
            ParseState::Thinking => Some(Channel::Thought),
            ParseState::Answering => Some(Channel::Answer),
            ParseState::Idle => None,
        }
    } else {
        None
    };
    match channel {
        Some(channel) => {
            let text = string_of(s, from, to);
            let ghost before = events@;
            events.push(Event { channel, text });
            assert(events_view(events@) =~= events_view(before) + emit(
                st,
                s@.subrange(from as int, to as int),
            ));
        },
        None => {
            assert(emit(st, s@.subrange(from as int, to as int)) =~= seq![]);
            assert(events_view(events@) =~= events_view(events@) + seq![]);
        },
    }
}

/// The classifier for one generation request: its parse state and the text
/// that is not resolved yet.
pub struct Classifier {
    state: ParseState,
    pending: Vec<char>,
}

impl View for Classifier {
    type V = (ParseState, Seq<char>);

    closed spec fn view(&self) -> (ParseState, Seq<char>) {
        (self.state, self.pending@)
    }
}

impl Classifier {
    /// A classifier at the start of a request: idle, nothing pending.
    pub fn new() -> (r: Classifier)
        ensures
            r@ == (ParseState::Idle, Seq::<char>::empty()),
    {
        let r = Classifier { state: ParseState::Idle, pending: Vec::new() };
        assert(r@.1 =~= Seq::<char>::empty());
        r
    }

    /// The current parse state.
    pub fn state(&self) -> (r: ParseState)
        ensures
            r == self@.0,
    {
        self.state
    }

    /// The text held back, not yet resolved into content or a tag.
    pub fn pending(&self) -> (r: String)
        ensures
            r@ == self@.1,
    {
        let r = string_of(&self.pending, 0, self.pending.len());
        assert(self.pending@.subrange(0, self.pending@.len() as int) =~= self.pending@);
        r
    }

    /// Appends a fragment to the pending text and resolves it: returns the
    /// events, in order, and keeps the state and pending text of `resolve`.
    pub fn feed(&mut self, fragment: &str) -> (events: Vec<Event>)
        ensures
            ({
                let r = resolve(old(self)@.0, old(self)@.1 + fragment@);
                &&& final(self)@ == (r.0, r.2)
                &&& events_view(events@) == r.1
            }),
    {
        let mut buf = chars_from(&self.pending, 0);
        assert(buf@ =~= self.pending@);
        push_str_chars(&mut buf, fragment);
        let ghost s = buf@;
        let ghost st0 = self.state;
        let mut state = self.state;
        let mut pos: usize = 0;
        let mut events: Vec<Event> = Vec::new();
        assert(events_view(events@) =~= seq![]);
        assert(resolve_from(st0, s, 0).1 =~= events_view(events@) + resolve_from(st0, s, 0).1);
        loop
            invariant
                buf@ == s,
                pos <= s.len(),
                ({
                    let r = resolve_from(state, s, pos as int);
                    resolve_from(st0, s, 0) == (r.0, events_view(events@) + r.1, r.2)
                }),
            ensures
                buf@ == s,
                pos <= s.len(),
                first_tag_from(s, pos as int) is None,
                ({
                    let r = resolve_from(state, s, pos as int);
                    resolve_from(st0, s, 0) == (r.0, events_view(events@) + r.1, r.2)
                }),
            decreases s.len() - pos,
        {
            match find_tag(&buf, pos) {
                Some((p, t)) => {
                    proof {
                        lemma_first_tag_found(s, pos as int);
                    }
                    let len = tag_chars(t).len();
                    let ghost e0 = events_view(events@);
                    let ghost r1 = resolve_from(state_after(t), s, p + len);
                    push_piece(&mut events, state, &buf, pos, p);
                    assert(e0 + (emit(state, s.subrange(pos as int, p as int)) + r1.1) =~= (e0
                        + emit(state, s.subrange(pos as int, p as int))) + r1.1);
                    state = next_state(t);
                    pos = p + len;
                },
                None => break,
            }
        }
        proof {
            lemma_last_open_bounds(s, pos as int, s.len() as int);
        }
        match find_last_open(&buf, pos) {
            Some(q) => {
                if buf.len() - q < LONGEST_TAG {
                    push_piece(&mut events, state, &buf, pos, q);
                    self.pending = chars_from(&buf, q);
                } else {
                    push_piece(&mut events, state, &buf, pos, buf.len());
                    self.pending = Vec::new();
                    assert(self.pending@ =~= Seq::<char>::empty());
                }
            },
            None => {
                push_piece(&mut events, state, &buf, pos, buf.len());
                self.pending = Vec::new();
                assert(self.pending@ =~= Seq::<char>::empty());
            },
        }
        self.state = state;
        events
    }

    /// Ends the stream: emits all pending text under the current state and
    /// clears it. No tag is resolved any more.
    pub fn finalize(&mut self) -> (events: Vec<Event>)
        ensures
            events_view(events@) == emit(old(self)@.0, old(self)@.1),
            final(self)@ == (old(self)@.0, Seq::<char>::empty()),
    {
        let mut events: Vec<Event> = Vec::new();
        assert(events_view(events@) =~= seq![]);
        push_piece(&mut events, self.state, &self.pending, 0, self.pending.len());
        assert(self.pending@.subrange(0, self.pending@.len() as int) =~= self.pending@);
        assert(events_view(events@) =~= emit(self.state, self.pending@));
        self.pending = Vec::new();
        assert(self.pending@ =~= Seq::<char>::empty());
        events
    }
}

} // verus!
